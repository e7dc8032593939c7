//! The embedding interface: what a host does with a script. The host loads
//! a source, calls a function and serves what the machine asks of it:
//! arithmetic on numbers, and the natives.

use vstd::prelude::*;
use crate::assemble::konsts_below;
use crate::compiler::Compiler;
use crate::error::{result_view, Error, ErrorView};
use crate::grammar::State;
use crate::machine::{Machine, Signal};
use crate::scanner::Scanner;
use crate::text::{chars_of, substring};
use crate::value::Value;
use crate::vm::BVM;

verus! {

/// A value as the host sees it. A number is a binary32 bit pattern.
#[derive(Debug)]
pub enum BakhtValue {
    Function,
    Boolean(bool),
    Number(u32),
    Array,
    Nil,
    String(String),
}

/// A `BakhtValue` as a mathematical value.
pub enum BakhtValueView {
    Function,
    Boolean(bool),
    Number(u32),
    Array,
    Nil,
    String(Seq<char>),
}

impl View for BakhtValue {
    type V = BakhtValueView;

    open spec fn view(&self) -> BakhtValueView {
        match self {
            BakhtValue::Function => BakhtValueView::Function,
            BakhtValue::Boolean(b) => BakhtValueView::Boolean(*b),
            BakhtValue::Number(n) => BakhtValueView::Number(*n),
            BakhtValue::Array => BakhtValueView::Array,
            BakhtValue::Nil => BakhtValueView::Nil,
            BakhtValue::String(s) => BakhtValueView::String(s@),
        }
    }
}

/// What the host sees of `value` in the machine `m`.
pub open spec fn host_value(m: Machine, value: Value) -> BakhtValueView {
    match value {
        Value::String(h) => BakhtValueView::String(m.string(h)),
        Value::Array(_) => BakhtValueView::Array,
        Value::Nil => BakhtValueView::Nil,
        Value::Boolean(b) => BakhtValueView::Boolean(b),
        Value::Number(n) => BakhtValueView::Number(n),
        Value::Function(_) => BakhtValueView::Function,
    }
}

/// The machine that a load of `source` leaves, and whether it succeeded: the
/// compiled machine with the entry function on its stack, ready to be
/// called, or after an error the empty machine.
pub open spec fn load_spec(source: Seq<char>) -> (Machine, Result<(), ErrorView>) {
    let (s, r) = (State {
        text: source,
        ptr: 0,
        buffer: None,
        vm: Machine::empty(),
        scopes: seq![Seq::empty()],
        offset: 0,
    }).compile();
    match r {
        Ok(_) => (s.vm.push(s.vm.constants[s.vm.entry as int]), Ok(())),
        Err(e) => (Machine::empty(), Err(e)),
    }
}

/// A script and the machine that runs it.
pub struct BakhtScript {
    vm: BVM,
}

impl View for BakhtScript {
    type V = Machine;

    closed spec fn view(&self) -> Machine {
        self.vm@
    }
}

impl Default for BakhtScript {
    fn default() -> (r: BakhtScript)
        ensures
            r@ == Machine::empty(),
    {
        BakhtScript { vm: BVM::default() }
    }
}

impl BakhtScript {
    /// Calls the function that lies under `argc` arguments on the stack and
    /// runs for at most `budget` steps.
    pub fn fcall(&mut self, argc: usize, budget: usize) -> (signal: Signal)
        ensures
            (final(self)@, signal) == old(self)@.fcall(argc as nat, budget as nat),
    {
        self.vm.fcall(argc, budget)
    }

    /// Runs on after the host has served what the machine asked for, or
    /// after a pause.
    pub fn resume(&mut self, budget: usize) -> (signal: Signal)
        ensures
            (final(self)@, signal) == old(self)@.run(budget as nat),
    {
        self.vm.resume(budget)
    }

    pub fn reset(&mut self)
        ensures
            final(self)@ == Machine::empty(),
    {
        self.vm.reset();
    }

    /// Compiles `source` into a fresh machine and puts the entry function
    /// on its stack. After an error the machine is empty. The machine's
    /// code is made of whole instructions, and every `konst` in it names a
    /// constant of the pool.
    pub fn load(&mut self, source: &str) -> (r: Result<(), Error>)
        ensures
            (final(self)@, result_view(r)) == load_spec(source@),
            load_spec(source@).1 != Err::<(), ErrorView>(ErrorView::Stuck),
            konsts_below(final(self)@.bin, 0, final(self)@.constants.len()),
            r is Ok ==> final(self)@.stack == seq![
                final(self)@.constants[final(self)@.entry as int],
            ] && final(self)@.constants[final(self)@.entry as int] is Function
                && final(self)@.error is None,
    {
        self.vm.reset();
        let scanner = Scanner::new(chars_of(source));
        proof {
            crate::assemble::lemma_konsts_empty(0);
        }
        let mut compiler = Compiler::new(scanner, BVM::default());
        match compiler.compile() {
            Ok(_) => {},
            Err(e) => {
                return Err(e);
            },
        }
        self.vm = compiler.vm();
        let main = self.vm.constants()[self.vm.entry()];
        self.vm.push(main);
        Ok(())
    }

    /// The number of values on the stack.
    pub fn sp(&self) -> (r: usize)
        ensures
            r == self@.sp(),
    {
        self.vm.sp()
    }

    /// Pops a value and gives what the host sees of it.
    pub fn pop(&mut self) -> (r: BakhtValue)
        requires
            old(self)@.sp() > 0,
        ensures
            r@ == host_value(old(self)@, old(self)@.peek(0)),
            final(self)@ == old(self)@.drop(1),
    {
        match self.vm.pop() {
            Value::String(h) => {
                let chars = self.vm.string(h);
                let n = chars.len();
                assert(chars@.subrange(0, n as int) =~= chars@);
                BakhtValue::String(substring(&chars, 0, n))
            },
            Value::Array(_) => BakhtValue::Array,
            Value::Nil => BakhtValue::Nil,
            Value::Boolean(b) => BakhtValue::Boolean(b),
            Value::Number(n) => BakhtValue::Number(n),
            Value::Function(_) => BakhtValue::Function,
        }
    }

    pub fn push_nil(&mut self)
        ensures
            final(self)@ == old(self)@.push(Value::Nil),
    {
        self.vm.push(Value::Nil)
    }

    /// Pushes the number with the bit pattern `bits`: the way in for what
    /// the host computed.
    pub fn push_number(&mut self, bits: u32)
        ensures
            final(self)@ == old(self)@.push(Value::Number(bits)),
    {
        self.vm.push(Value::Number(bits))
    }

    pub fn push_boolean(&mut self, b: bool)
        ensures
            final(self)@ == old(self)@.push(Value::Boolean(b)),
    {
        self.vm.push(Value::Boolean(b))
    }

    /// Puts the characters of `s` into the heap as a new string and pushes
    /// it.
    pub fn push_string(&mut self, s: &str)
        ensures
            final(self)@ == (Machine {
                strings: old(self)@.strings.push(s@),
                ..old(self)@.push(Value::String(old(self)@.strings.len() as usize))
            }),
    {
        let value = self.vm.new_string(chars_of(s));
        self.vm.push(value);
    }

    /// Records `e` as the script's error.
    pub fn fail(&mut self, e: Error)
        ensures
            final(self)@ == old(self)@.fault(e@),
    {
        self.vm.fail(e);
    }

    /// The last error as a failure, or success where there is none.
    pub fn error(&self) -> (r: Result<(), Error>)
        ensures
            match r {
                Ok(_) => self@.error is None,
                Err(e) => self@.error == Some(e@),
            },
    {
        match self.vm.error() {
            Some(e) => Err(e),
            None => Ok(()),
        }
    }

    /// Pops an element, then an array, and appends the element to the array.
    pub fn array_push(&mut self)
        requires
            old(self)@.sp() >= 2,
        ensures
            final(self)@ == old(self)@.array_push(),
    {
        self.vm.array_push();
    }

    /// Pops an array, takes its last element off and pushes that.
    pub fn array_pop(&mut self)
        requires
            old(self)@.sp() >= 1,
        ensures
            final(self)@ == old(self)@.array_pop(),
    {
        self.vm.array_pop();
    }

    /// Pops an array or a string and pushes its length as a number.
    pub fn array_len(&mut self)
        requires
            old(self)@.sp() >= 1,
        ensures
            final(self)@ == old(self)@.array_len(),
    {
        self.vm.array_len();
    }
}

} // verus!
