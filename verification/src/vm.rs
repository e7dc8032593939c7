//! The virtual machine: an evaluation stack, a stack of frames, the bytecode
//! with its constant pool, and a heap of strings and arrays.
//!
//! The heap only grows. A string or an array that no value holds any more
//! keeps its place, and its handle is not given out again; `reset` is what
//! frees the heap. Handles thus stay valid for as long as the machine runs,
//! and a script that makes strings or arrays without end takes memory
//! without end.

use vstd::prelude::*;
use crate::assemble::decode;
use crate::bin::{
    IADD, IANEW, ICALL, ICJMP, IDIV, IEQ, IFALSE, IGE, IGET, IGT, IJMP, IKONST, ILE, ILOAD, ILT,
    IMOD, IMULT, INE, INIL, INOP, IPOP, IRET, ISET, ISTORE, ISUB, ITRUE,
};
use crate::error::{error_view, Error};
use crate::machine::{branch_target, text_lt, ArithOp, Frame, Machine, Relation, Signal};
use crate::number::{equal, index_of, less, less_equal, of_usize, zero};
use crate::value::{arrays_view, strings_view, Array, Function, Value};

verus! {

/// Where a branch with the operand `offset` leads from `ip`.
fn target(ip: usize, offset: u64) -> (r: usize)
    ensures
        r == branch_target(ip, offset as nat),
{
    proof {
        vstd::arithmetic::div_mod::lemma_add_mod_noop(ip as int, offset as int, 0x1_0000);
    }
    (((ip % 0x1_0000) as u64 + offset % 0x1_0000) % 0x1_0000) as usize
}

/// The virtual machine.
pub struct BVM {
    stack: Vec<Value>,
    bin: Vec<u8>,
    constants: Vec<Value>,
    frames: Vec<Frame>,
    entry: usize,
    error: Option<Error>,
    strings: Vec<Vec<char>>,
    arrays: Vec<Array>,
}

impl View for BVM {
    type V = Machine;

    closed spec fn view(&self) -> Machine {
        Machine {
            stack: self.stack@,
            bin: self.bin@,
            constants: self.constants@,
            frames: self.frames@,
            entry: self.entry,
            error: error_view(self.error),
            strings: strings_view(self.strings@),
            arrays: arrays_view(self.arrays@),
        }
    }
}

impl Default for BVM {
    /// A machine that holds nothing but the sentinel frame.
    fn default() -> (bvm: BVM)
        ensures
            bvm@ == Machine::empty(),
    {
        let mut bvm = BVM {
            stack: Vec::new(),
            bin: Vec::new(),
            constants: Vec::new(),
            frames: Vec::new(),
            entry: 0,
            error: None,
            strings: Vec::new(),
            arrays: Vec::new(),
        };
        bvm.init();
        assert(bvm@.strings =~= Seq::empty());
        assert(bvm@.arrays =~= Seq::empty());
        bvm
    }
}

impl BVM {
    /// Empties the stack, the frames, the constants, the bytecode and the
    /// heap, forgets the error and installs the sentinel frame.
    pub fn reset(&mut self)
        ensures
            final(self)@ == Machine::empty(),
    {
        self.bin.clear();
        self.constants.clear();
        self.stack.clear();
        self.frames.clear();
        self.strings.clear();
        self.arrays.clear();
        self.error = None;
        self.entry = 0;
        self.init();
        assert(self@.strings =~= Seq::empty());
        assert(self@.arrays =~= Seq::empty());
    }

    /// Installs a sentinel frame.
    pub fn init(&mut self)
        ensures
            final(self)@ == (Machine {
                frames: old(self)@.frames.push(Frame { ip: 0, bp: 0, from_host: true }),
                ..old(self)@
            }),
    {
        self.frames.push(Frame { ip: 0, bp: 0, from_host: true })
    }

    pub fn push(&mut self, value: Value)
        ensures
            final(self)@ == old(self)@.push(value),
    {
        self.stack.push(value)
    }

    pub fn pop(&mut self) -> (value: Value)
        requires
            old(self)@.sp() > 0,
        ensures
            value == old(self)@.peek(0),
            final(self)@ == old(self)@.drop(1),
    {
        let value = self.stack.pop().unwrap();
        value
    }

    /// The number of values on the stack.
    pub fn sp(&self) -> (r: usize)
        ensures
            r == self@.sp(),
    {
        self.stack.len()
    }

    /// The last error, if any.
    pub fn error(&self) -> (r: Option<Error>)
        ensures
            error_view(r) == self@.error,
    {
        match &self.error {
            Some(e) => Some(e.clone()),
            None => None,
        }
    }

    /// The bytecode.
    pub fn bin(&self) -> (r: &Vec<u8>)
        ensures
            r@ == self@.bin,
    {
        &self.bin
    }

    /// The constant pool.
    pub fn constants(&self) -> (r: &Vec<Value>)
        ensures
            r@ == self@.constants,
    {
        &self.constants
    }

    /// The constant that holds the entry function.
    pub fn entry(&self) -> (r: usize)
        ensures
            r == self@.entry,
    {
        self.entry
    }

    /// The number of frames, the sentinel included.
    pub fn depth(&self) -> (r: usize)
        ensures
            r == self@.frames.len(),
    {
        self.frames.len()
    }

    /// The characters of the string with handle `h`; none where no string
    /// has that handle.
    pub fn string(&self, h: usize) -> (r: Vec<char>)
        ensures
            r@ == self@.string(h),
    {
        let mut r: Vec<char> = Vec::new();
        if h < self.strings.len() {
            let s = &self.strings[h];
            let mut k: usize = 0;
            while k < s.len()
                invariant
                    k <= s.len(),
                    r@ == s@.take(k as int),
                decreases s.len() - k,
            {
                r.push(s[k]);
                k = k + 1;
            }
        }
        r
    }

    /// The elements of the array with handle `h`, if there is such an array.
    pub fn array(&self, h: usize) -> (r: Option<&Array>)
        ensures
            match r {
                Some(a) => h < self@.arrays.len() && a@ == self@.arrays[h as int],
                None => h >= self@.arrays.len(),
            },
    {
        if h < self.arrays.len() {
            Some(&self.arrays[h])
        } else {
            None
        }
    }

    /// Puts a string into the heap and gives the value that holds it.
    pub fn new_string(&mut self, chars: Vec<char>) -> (value: Value)
        ensures
            value == Value::String(old(self)@.strings.len() as usize),
            final(self)@ == (Machine { strings: old(self)@.strings.push(chars@), ..old(self)@ }),
    {
        let h = self.strings.len();
        self.strings.push(chars);
        assert(self@.strings =~= old(self)@.strings.push(chars@));
        Value::String(h)
    }

    /// Puts an array into the heap and gives the value that holds it.
    pub fn new_array(&mut self, elements: Vec<Value>) -> (value: Value)
        ensures
            value == Value::Array(old(self)@.arrays.len() as usize),
            final(self)@ == (Machine { arrays: old(self)@.arrays.push(elements@), ..old(self)@ }),
    {
        let h = self.arrays.len();
        self.arrays.push(Array::new(elements));
        assert(self@.arrays =~= old(self)@.arrays.push(elements@));
        Value::Array(h)
    }

    /// Appends one byte to the bytecode.
    pub fn emit(&mut self, bytecode: u8)
        ensures
            final(self)@ == (Machine { bin: old(self)@.bin.push(bytecode), ..old(self)@ }),
    {
        self.bin.push(bytecode);
    }

    /// Overwrites the byte at `at`.
    pub fn patch(&mut self, at: usize, bytecode: u8)
        requires
            at < old(self)@.bin.len(),
        ensures
            final(self)@ == (Machine {
                bin: old(self)@.bin.update(at as int, bytecode),
                ..old(self)@
            }),
    {
        self.bin[at] = bytecode;
    }

    /// Appends a number to the constant pool and gives its index.
    pub fn rodata_number(&mut self, number: u32) -> (idx: usize)
        ensures
            idx == old(self)@.constants.len(),
            final(self)@ == (Machine {
                constants: old(self)@.constants.push(Value::Number(number)),
                ..old(self)@
            }),
    {
        let idx = self.constants.len();
        self.constants.push(Value::Number(number));
        idx
    }

    /// Puts a string into the heap, appends it to the constant pool and gives
    /// its index there.
    pub fn rodata_literal(&mut self, literal: Vec<char>) -> (idx: usize)
        ensures
            idx == old(self)@.constants.len(),
            final(self)@ == (Machine {
                constants: old(self)@.constants.push(
                    Value::String(old(self)@.strings.len() as usize),
                ),
                strings: old(self)@.strings.push(literal@),
                ..old(self)@
            }),
    {
        let idx = self.constants.len();
        let value = self.new_string(literal);
        self.constants.push(value);
        idx
    }

    /// Appends to the constant pool a function whose code starts at the end
    /// of the bytecode written so far, and gives its index. With `entry` the
    /// function becomes the entry function.
    pub fn rodata_function(&mut self, param_count: usize, entry: bool) -> (idx: usize)
        ensures
            idx == old(self)@.constants.len(),
            final(self)@ == (Machine {
                constants: old(self)@.constants.push(
                    Value::Function(
                        Function::Bakht { param_count, address: old(self)@.bin.len() as usize },
                    ),
                ),
                entry: if entry {
                    idx
                } else {
                    old(self)@.entry
                },
                ..old(self)@
            }),
    {
        let address = self.bin.len();
        let idx = self.constants.len();
        self.constants.push(Value::Function(Function::Bakht { param_count, address }));
        if entry {
            self.entry = idx;
        }
        idx
    }

    /// Appends a native of the host to the constant pool and gives its index.
    pub fn rodata_native(&mut self, func: usize, param_count: usize) -> (idx: usize)
        ensures
            idx == old(self)@.constants.len(),
            final(self)@ == (Machine {
                constants: old(self)@.constants.push(
                    Value::Function(Function::Native { param_count, func }),
                ),
                ..old(self)@
            }),
    {
        let idx = self.constants.len();
        self.constants.push(Value::Function(Function::Native { func, param_count }));
        idx
    }

    /// The base of the current frame.
    fn bp(&self) -> (r: usize)
        ensures
            r == self@.bp(),
    {
        let n = self.frames.len();
        if n > 0 {
            self.frames[n - 1].bp
        } else {
            0
        }
    }

    /// Records `e` as the machine's error.
    fn raise(&mut self, e: Error)
        ensures
            final(self)@ == old(self)@.fault(e@),
    {
        self.error = Some(e);
    }

    fn text_len(&self, h: usize) -> (r: usize)
        ensures
            r == self@.string(h).len(),
    {
        if h < self.strings.len() {
            self.strings[h].len()
        } else {
            0
        }
    }

    fn text_char(&self, h: usize, k: usize) -> (r: char)
        requires
            k < self@.string(h).len(),
        ensures
            r == self@.string(h)[k as int],
    {
        self.strings[h][k]
    }

    /// Whether two strings of the heap hold the same characters.
    fn text_equal(&self, l: usize, r: usize) -> (same: bool)
        ensures
            same == (self@.string(l) == self@.string(r)),
    {
        let n = self.text_len(l);
        if n != self.text_len(r) {
            return false;
        }
        let mut k: usize = 0;
        while k < n
            invariant
                k <= n,
                n == self@.string(l).len(),
                n == self@.string(r).len(),
                forall|j: int| 0 <= j < k ==> self@.string(l)[j] == self@.string(r)[j],
            decreases n - k,
        {
            if self.text_char(l, k) != self.text_char(r, k) {
                return false;
            }
            k = k + 1;
        }
        assert(self@.string(l) =~= self@.string(r));
        true
    }

    /// Whether one string of the heap comes before another.
    fn text_less(&self, l: usize, r: usize) -> (before: bool)
        ensures
            before == text_lt(self@.string(l), self@.string(r)),
    {
        let n = self.text_len(l);
        let m = self.text_len(r);
        let ghost a = self@.string(l);
        let ghost b = self@.string(r);
        let mut k: usize = 0;
        assert(a.skip(0) =~= a && b.skip(0) =~= b);
        loop
            invariant
                k <= n,
                k <= m,
                n == a.len(),
                m == b.len(),
                a == self@.string(l),
                b == self@.string(r),
                text_lt(a, b) == text_lt(a.skip(k as int), b.skip(k as int)),
            decreases n - k,
        {
            if k == m {
                return false;
            }
            if k == n {
                return true;
            }
            let x = self.text_char(l, k);
            let y = self.text_char(r, k);
            if x != y {
                return (x as u32) < (y as u32);
            }
            proof {
                assert(a.skip(k as int).skip(1) =~= a.skip(k + 1));
                assert(b.skip(k as int).skip(1) =~= b.skip(k + 1));
            }
            k = k + 1;
        }
    }

    /// Equality of the language.
    pub fn value_eq(&self, a: Value, b: Value) -> (r: bool)
        ensures
            r == self@.value_eq(a, b),
    {
        match (a, b) {
            (Value::String(l), Value::String(r)) => self.text_equal(l, r),
            (Value::Nil, Value::Nil) => true,
            (Value::Array(l), Value::Array(r)) => l == r,
            (Value::Boolean(l), Value::Boolean(r)) => l == r,
            (Value::Number(l), Value::Number(r)) => equal(l, r),
            (Value::Function(l), Value::Function(r)) => match (l, r) {
                (Function::Bakht { address: l, .. }, Function::Bakht { address: r, .. }) => l == r,
                (Function::Native { func: l, .. }, Function::Native { func: r, .. }) => l == r,
                _ => false,
            },
            _ => false,
        }
    }

    fn i_load(&mut self, operand: u64)
        ensures
            final(self)@ == old(self)@.i_load(operand as nat),
    {
        let bp = self.bp();
        let sp = self.stack.len();
        if bp < sp && operand < (sp - bp) as u64 {
            let value = self.stack[bp + operand as usize];
            self.stack.push(value);
        } else {
            self.raise(Error::InvalidBytecode);
        }
    }

    fn i_store(&mut self, operand: u64)
        ensures
            final(self)@ == old(self)@.i_store(operand as nat),
    {
        let bp = self.bp();
        let sp = self.stack.len();
        if sp >= 1 && bp < sp - 1 && operand < (sp - 1 - bp) as u64 {
            let value = self.stack.pop().unwrap();
            self.stack[bp + operand as usize] = value;
        } else {
            self.raise(Error::InvalidBytecode);
        }
    }

    fn i_konst(&mut self, operand: u64)
        ensures
            final(self)@ == old(self)@.i_konst(operand as nat),
    {
        if operand < self.constants.len() as u64 {
            let value = self.constants[operand as usize];
            self.stack.push(value);
        } else {
            self.raise(Error::InvalidBytecode);
        }
    }

    fn i_arith(&mut self, op: ArithOp) -> (signal: Option<Signal>)
        ensures
            (final(self)@, signal) == old(self)@.i_arith(op),
    {
        let sp = self.stack.len();
        if sp < 2 {
            self.raise(Error::InvalidBytecode);
            return None;
        }
        let b = self.stack[sp - 1];
        let a = self.stack[sp - 2];
        self.stack.truncate(sp - 2);
        match (a, b) {
            (Value::Number(a), Value::Number(b)) => {
                let divides = match op {
                    ArithOp::Div | ArithOp::Mod => true,
                    _ => false,
                };
                if divides && zero(b) {
                    self.raise(Error::DivisionByZero);
                    None
                } else {
                    Some(Signal::Arith(op, a, b))
                }
            },
            _ => {
                self.raise(Error::InvalidOperands);
                None
            },
        }
    }

    fn i_eq(&mut self, negate: bool)
        ensures
            final(self)@ == old(self)@.i_eq(negate),
    {
        let sp = self.stack.len();
        if sp < 2 {
            self.raise(Error::InvalidBytecode);
            return ;
        }
        let same = self.value_eq(self.stack[sp - 2], self.stack[sp - 1]);
        self.stack.truncate(sp - 2);
        self.stack.push(Value::Boolean(same != negate));
    }

    fn i_relation(&mut self, relation: Relation)
        ensures
            final(self)@ == old(self)@.i_relation(relation),
    {
        let sp = self.stack.len();
        if sp < 2 {
            self.raise(Error::InvalidBytecode);
            return ;
        }
        let b = self.stack[sp - 1];
        let a = self.stack[sp - 2];
        self.stack.truncate(sp - 2);
        match (a, b) {
            (Value::Number(a), Value::Number(b)) => {
                let holds = match relation {
                    Relation::Lt => less(a, b),
                    Relation::Le => less_equal(a, b),
                    Relation::Gt => less(b, a),
                    Relation::Ge => less_equal(b, a),
                };
                self.stack.push(Value::Boolean(holds));
            },
            (Value::String(a), Value::String(b)) => {
                let holds = match relation {
                    Relation::Lt => self.text_less(a, b),
                    Relation::Le => !self.text_less(b, a),
                    Relation::Gt => self.text_less(b, a),
                    Relation::Ge => !self.text_less(a, b),
                };
                self.stack.push(Value::Boolean(holds));
            },
            _ => self.raise(Error::InvalidOperands),
        }
    }

    fn i_anew(&mut self, count: u64)
        ensures
            final(self)@ == old(self)@.i_anew(count as nat),
    {
        let sp = self.stack.len();
        if (sp as u64) < count {
            self.raise(Error::InvalidBytecode);
            return ;
        }
        let elements = self.stack.split_off(sp - count as usize);
        let value = self.new_array(elements);
        self.stack.push(value);
    }

    fn i_pop(&mut self, count: u64)
        ensures
            final(self)@ == old(self)@.i_pop(count as nat),
    {
        let sp = self.stack.len();
        if (sp as u64) < count {
            self.raise(Error::InvalidBytecode);
            return ;
        }
        self.stack.truncate(sp - count as usize);
    }

    fn i_ret(&mut self) -> (signal: Option<Signal>)
        ensures
            (final(self)@, signal) == old(self)@.i_ret(),
    {
        let sp = self.stack.len();
        let bp = self.bp();
        if self.frames.len() < 2 || sp < 1 || bp > sp - 1 {
            self.raise(Error::InvalidBytecode);
            return None;
        }
        let yld = self.stack[sp - 1];
        self.stack.truncate(bp);
        let frame = self.frames.pop().unwrap();
        self.stack.push(yld);
        if frame.from_host {
            Some(Signal::Done)
        } else {
            None
        }
    }

    fn i_get(&mut self)
        ensures
            final(self)@ == old(self)@.i_get(),
    {
        let sp = self.stack.len();
        if sp < 2 {
            self.raise(Error::InvalidBytecode);
            return ;
        }
        let idx = self.stack[sp - 1];
        let val = self.stack[sp - 2];
        self.stack.truncate(sp - 2);
        match (val, idx) {
            (Value::Array(h), Value::Number(i)) => {
                if h >= self.arrays.len() {
                    self.raise(Error::InvalidOperands);
                    return ;
                }
                let found = match index_of(i) {
                    Some(k) => self.arrays[h].get(k),
                    None => None,
                };
                match found {
                    Some(element) => self.stack.push(element),
                    None => self.raise(Error::IndexOutOfBound),
                }
            },
            (Value::String(h), Value::Number(i)) => {
                match index_of(i) {
                    Some(k) => {
                        if k < self.text_len(h) {
                            let c = self.text_char(h, k);
                            let mut one: Vec<char> = Vec::new();
                            one.push(c);
                            let value = self.new_string(one);
                            self.stack.push(value);
                        } else {
                            self.raise(Error::IndexOutOfBound);
                        }
                    },
                    None => self.raise(Error::IndexOutOfBound),
                }
            },
            _ => self.raise(Error::InvalidOperands),
        }
    }

    fn i_set(&mut self)
        ensures
            final(self)@ == old(self)@.i_set(),
    {
        let sp = self.stack.len();
        if sp < 3 {
            self.raise(Error::InvalidBytecode);
            return ;
        }
        let ele = self.stack[sp - 1];
        let idx = self.stack[sp - 2];
        let val = self.stack[sp - 3];
        self.stack.truncate(sp - 3);
        match (val, idx) {
            (Value::Array(h), Value::Number(i)) => {
                if h >= self.arrays.len() {
                    self.raise(Error::InvalidOperands);
                    return ;
                }
                let done = match index_of(i) {
                    Some(k) => self.arrays[h].set(k, ele),
                    None => false,
                };
                if done {
                    assert(self@.arrays =~= old(self)@.arrays.update(
                        h as int,
                        old(self)@.arrays[h as int].update(
                            crate::number::whole_part(i) as int,
                            ele,
                        ),
                    ));
                    self.stack.push(val);
                    assert(self@.stack =~= old(self)@.stack.take(sp - 2));
                } else {
                    assert(self@.arrays =~= old(self)@.arrays);
                    self.raise(Error::IndexOutOfBound);
                }
            },
            _ => self.raise(Error::InvalidOperands),
        }
    }

    /// Moves the current frame's `ip` to `ip`.
    fn goto(&mut self, ip: usize)
        requires
            old(self)@.frames.len() > 0,
        ensures
            final(self)@ == old(self)@.goto(ip),
    {
        let n = self.frames.len();
        let frame = self.frames[n - 1];
        self.frames[n - 1] = Frame { ip, bp: frame.bp, from_host: frame.from_host };
    }

    fn i_jmp(&mut self, offset: u64)
        ensures
            final(self)@ == old(self)@.i_jmp(offset as nat),
    {
        let n = self.frames.len();
        if n == 0 {
            self.raise(Error::InvalidBytecode);
        } else {
            let ip = target(self.frames[n - 1].ip, offset);
            self.goto(ip);
        }
    }

    fn i_cjmp(&mut self, offset: u64)
        ensures
            final(self)@ == old(self)@.i_cjmp(offset as nat),
    {
        let sp = self.stack.len();
        if sp < 1 {
            self.raise(Error::InvalidBytecode);
            return ;
        }
        if self.stack[sp - 1].falsy() {
            let n = self.frames.len();
            if n == 0 {
                self.raise(Error::InvalidBytecode);
            } else {
                let ip = target(self.frames[n - 1].ip, offset);
                self.stack.truncate(sp - 1);
                self.goto(ip);
            }
        } else {
            self.stack.truncate(sp - 1);
        }
    }

    /// Makes `argc` arguments on top of the stack into `param_count`: pushes
    /// `nil` for each that is missing, discards from the top what is too many.
    pub fn push_args(&mut self, argc: usize, param_count: usize)
        ensures
            final(self)@ == old(self)@.push_args(argc as nat, param_count as nat),
    {
        if argc >= param_count {
            let extra = argc - param_count;
            let sp = self.stack.len();
            if extra <= sp {
                self.stack.truncate(sp - extra);
            } else {
                self.stack.clear();
            }
        } else {
            let missing = param_count - argc;
            let mut k: usize = 0;
            while k < missing
                invariant
                    k <= missing,
                    self@ == (Machine {
                        stack: old(self)@.stack + Seq::new(k as nat, |i: int| Value::Nil),
                        ..old(self)@
                    }),
                decreases missing - k,
            {
                self.stack.push(Value::Nil);
                k = k + 1;
                assert(old(self)@.stack + Seq::new(k as nat, |i: int| Value::Nil) =~= (old(
                    self,
                )@.stack + Seq::new((k - 1) as nat, |i: int| Value::Nil)).push(Value::Nil));
            }
        }
    }

    /// Calls the value that lies under `argc` arguments.
    fn call(&mut self, argc: usize, from_host: bool) -> (signal: Option<Signal>)
        ensures
            (final(self)@, signal) == old(self)@.call(argc as nat, from_host),
    {
        let sp = self.stack.len();
        if sp == 0 || sp - 1 < argc {
            self.raise(Error::InvalidBytecode);
            return None;
        }
        let func = self.stack.remove(sp - 1 - argc);
        match func {
            Value::Function(f) => match f {
                Function::Bakht { param_count, address } => {
                    self.push_args(argc, param_count);
                    let bp = self.stack.len() - param_count;
                    self.frames.push(Frame { ip: address, bp, from_host });
                    None
                },
                Function::Native { param_count, func } => {
                    self.push_args(argc, param_count);
                    Some(Signal::Native(func))
                },
            },
            _ => {
                self.raise(Error::CallingNonFunction);
                None
            },
        }
    }

    /// Executes the instruction with canonical opcode `opcode`.
    fn execute(&mut self, opcode: u8, operand: u64) -> (signal: Option<Signal>)
        ensures
            (final(self)@, signal) == old(self)@.execute(opcode, operand as nat),
    {
        if opcode == INOP {
            None
        } else if opcode == IADD {
            self.i_arith(ArithOp::Add)
        } else if opcode == ISUB {
            self.i_arith(ArithOp::Sub)
        } else if opcode == IMULT {
            self.i_arith(ArithOp::Mult)
        } else if opcode == IDIV {
            self.i_arith(ArithOp::Div)
        } else if opcode == IMOD {
            self.i_arith(ArithOp::Mod)
        } else if opcode == IEQ {
            self.i_eq(false);
            None
        } else if opcode == INE {
            self.i_eq(true);
            None
        } else if opcode == IGE {
            self.i_relation(Relation::Ge);
            None
        } else if opcode == ILE {
            self.i_relation(Relation::Le);
            None
        } else if opcode == IGT {
            self.i_relation(Relation::Gt);
            None
        } else if opcode == ILT {
            self.i_relation(Relation::Lt);
            None
        } else if opcode == ISET {
            self.i_set();
            None
        } else if opcode == IGET {
            self.i_get();
            None
        } else if opcode == IPOP {
            self.i_pop(operand);
            None
        } else if opcode == IRET {
            self.i_ret()
        } else if opcode == ILOAD {
            self.i_load(operand);
            None
        } else if opcode == ISTORE {
            self.i_store(operand);
            None
        } else if opcode == ICALL {
            if operand >= self.stack.len() as u64 {
                self.raise(Error::InvalidBytecode);
                None
            } else {
                self.call(operand as usize, false)
            }
        } else if opcode == IKONST {
            self.i_konst(operand);
            None
        } else if opcode == INIL {
            self.push(Value::Nil);
            None
        } else if opcode == ITRUE {
            self.push(Value::Boolean(true));
            None
        } else if opcode == IFALSE {
            self.push(Value::Boolean(false));
            None
        } else if opcode == IANEW {
            self.i_anew(operand);
            None
        } else if opcode == IJMP {
            self.i_jmp(operand);
            None
        } else if opcode == ICJMP {
            self.i_cjmp(operand);
            None
        } else {
            self.raise(Error::InvalidBytecode);
            None
        }
    }

    /// Reads the instruction at the current frame's `ip` and moves `ip`
    /// behind it.
    fn fetch(&mut self) -> (r: Option<(u8, u64)>)
        ensures
            match r {
                Some((opcode, operand)) => (final(self)@, Some((opcode, operand as nat)))
                    == old(self)@.fetch(),
                None => (final(self)@, None::<(u8, nat)>) == old(self)@.fetch(),
            },
    {
        let n = self.frames.len();
        if n == 0 {
            self.raise(Error::InvalidBytecode);
            return None;
        }
        match decode(&self.bin, self.frames[n - 1].ip) {
            Some(d) => {
                self.goto(d.next);
                Some((d.opcode, d.operand))
            },
            None => {
                self.raise(Error::InvalidBytecode);
                None
            },
        }
    }

    /// One step: fetches an instruction and executes it.
    pub fn step(&mut self) -> (signal: Option<Signal>)
        ensures
            (final(self)@, signal) == old(self)@.step(),
    {
        match self.fetch() {
            Some((opcode, operand)) => self.execute(opcode, operand),
            None => None,
        }
    }

    /// Runs on, for at most `budget` steps, until there is something to tell
    /// the host.
    pub fn resume(&mut self, budget: usize) -> (signal: Signal)
        ensures
            (final(self)@, signal) == old(self)@.run(budget as nat),
    {
        let mut left: usize = budget;
        loop
            invariant
                old(self)@.run(budget as nat) == self@.run(left as nat),
            decreases left,
        {
            if self.error.is_some() {
                return Signal::Fault;
            }
            if self.frames.len() <= 1 {
                return Signal::Done;
            }
            if left == 0 {
                return Signal::Paused;
            }
            match self.step() {
                Some(signal) => {
                    return signal;
                },
                None => {
                    left = left - 1;
                },
            }
        }
    }

    /// Calls the function that lies under `argc` arguments on the stack and
    /// runs for at most `budget` steps.
    pub fn fcall(&mut self, argc: usize, budget: usize) -> (signal: Signal)
        ensures
            (final(self)@, signal) == old(self)@.fcall(argc as nat, budget as nat),
    {
        if self.error.is_some() {
            return Signal::Fault;
        }
        match self.call(argc, true) {
            Some(signal) => signal,
            None => self.resume(budget),
        }
    }

    /// Records `e` as the machine's error.
    pub fn fail(&mut self, e: Error)
        ensures
            final(self)@ == old(self)@.fault(e@),
    {
        self.raise(e);
    }

    /// Pops an element, then an array, and appends the element to the array.
    pub fn array_push(&mut self)
        requires
            old(self)@.sp() >= 2,
        ensures
            final(self)@ == old(self)@.array_push(),
    {
        let ele = self.pop();
        match self.pop() {
            Value::Array(h) => {
                if h < self.arrays.len() {
                    self.arrays[h].push(ele);
                    assert(self@.arrays =~= old(self)@.arrays.update(
                        h as int,
                        old(self)@.arrays[h as int].push(ele),
                    ));
                    assert(self@.stack =~= old(self)@.drop(2).stack);
                } else {
                    assert(self@.stack =~= old(self)@.drop(2).stack);
                    self.raise(Error::InvalidOperands);
                }
            },
            _ => {
                assert(self@.stack =~= old(self)@.drop(2).stack);
                self.raise(Error::InvalidOperands);
            },
        }
    }

    /// Pops an array, takes its last element off and pushes that.
    pub fn array_pop(&mut self)
        requires
            old(self)@.sp() >= 1,
        ensures
            final(self)@ == old(self)@.array_pop(),
    {
        match self.pop() {
            Value::Array(h) => {
                if h < self.arrays.len() {
                    match self.arrays[h].pop() {
                        Some(ele) => {
                            assert(self@.arrays =~= old(self)@.arrays.update(
                                h as int,
                                old(self)@.arrays[h as int].drop_last(),
                            ));
                            self.push(ele);
                        },
                        None => {
                            assert(self@.arrays =~= old(self)@.arrays);
                            self.raise(Error::IndexOutOfBound);
                        },
                    }
                } else {
                    self.raise(Error::InvalidOperands);
                }
            },
            _ => {
                self.raise(Error::InvalidOperands);
            },
        }
    }

    /// Pops an array or a string and pushes its length as a number.
    pub fn array_len(&mut self)
        requires
            old(self)@.sp() >= 1,
        ensures
            final(self)@ == old(self)@.array_len(),
    {
        match self.pop() {
            Value::Array(h) => {
                if h < self.arrays.len() {
                    let n = self.arrays[h].len();
                    self.push(Value::Number(of_usize(n)));
                } else {
                    self.raise(Error::InvalidOperands);
                }
            },
            Value::String(h) => {
                let n = self.text_len(h);
                self.push(Value::Number(of_usize(n)));
            },
            _ => {
                self.raise(Error::InvalidOperands);
            },
        }
    }
}

} // verus!
