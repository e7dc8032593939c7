//! Run-time values. Strings and arrays live in the machine's heap; a value
//! holds their handle, so values are plain and cheap to copy.
//!
//! `==` on `Value` and on `Function` compares what they hold, field by
//! field. That is not the equality of the language, which takes strings by
//! their content, numbers as binary32 numbers, and functions by the code
//! they name alone: for that, see `Function::same` and `BVM::value_eq`.

use vstd::prelude::*;

verus! {

/// A callable: compiled code at an address, or a native of the host.
/// `param_count` is the number of arguments that the callee expects.
///
/// `==` compares `param_count` too, which is no part of what makes two
/// functions the same: the language compares by `same`.
#[derive(Clone, Copy, Debug, PartialEq, Eq, Structural)]
pub enum Function {
    Bakht { param_count: usize, address: usize },
    Native { param_count: usize, func: usize },
}

impl Function {
    pub open spec fn params(self) -> usize {
        match self {
            Function::Bakht { param_count, .. } => param_count,
            Function::Native { param_count, .. } => param_count,
        }
    }

    /// Two functions are the same when they name the same code: the same
    /// address or the same native. The parameter count is no part of that.
    pub open spec fn same(self, other: Function) -> bool {
        match (self, other) {
            (Function::Bakht { address: l, .. }, Function::Bakht { address: r, .. }) => l == r,
            (Function::Native { func: l, .. }, Function::Native { func: r, .. }) => l == r,
            _ => false,
        }
    }
}

/// A value of the language. `String` and `Array` hold handles into the
/// machine's heap; `Number` holds a binary32 bit pattern.
///
/// `==` compares handles and bit patterns. Two strings of one content are
/// unequal under it where their handles differ, and so are the two zeros;
/// the language compares by `BVM::value_eq`.
#[derive(Clone, Copy, Debug, PartialEq, Eq, Structural)]
pub enum Value {
    String(usize),
    Array(usize),
    Nil,
    Boolean(bool),
    Number(u32),
    Function(Function),
}

impl Value {
    /// `false` and `nil` are the only values that count as false.
    pub open spec fn is_falsy(self) -> bool {
        self == Value::Nil || self == Value::Boolean(false)
    }

    pub fn falsy(&self) -> (r: bool)
        ensures
            r == self.is_falsy(),
    {
        match self {
            Value::Nil => true,
            Value::Boolean(b) => !*b,
            _ => false,
        }
    }
}

/// A mutable sequence of values.
pub struct Array {
    inner: Vec<Value>,
}

impl View for Array {
    type V = Seq<Value>;

    closed spec fn view(&self) -> Seq<Value> {
        self.inner@
    }
}

impl Array {
    pub fn new(array: Vec<Value>) -> (r: Array)
        ensures
            r@ == array@,
    {
        Array { inner: array }
    }

    pub fn push(&mut self, value: Value)
        ensures
            final(self)@ == old(self)@.push(value),
    {
        self.inner.push(value)
    }

    /// Takes the last element off, if there is one.
    pub fn pop(&mut self) -> (r: Option<Value>)
        ensures
            match r {
                Some(v) => old(self)@.len() > 0 && v == old(self)@.last() && final(self)@ == old(
                    self,
                )@.drop_last(),
                None => old(self)@.len() == 0 && final(self)@ == old(self)@,
            },
    {
        self.inner.pop()
    }

    pub fn len(&self) -> (r: usize)
        ensures
            r == self@.len(),
    {
        self.inner.len()
    }

    pub fn get(&self, index: usize) -> (r: Option<Value>)
        ensures
            r == if index < self@.len() {
                Some(self@[index as int])
            } else {
                None
            },
            self@.len() <= usize::MAX,
    {
        if index < self.inner.len() {
            Some(self.inner[index])
        } else {
            None
        }
    }

    /// Writes `value` at `index`; tells whether `index` was inside the array.
    pub fn set(&mut self, index: usize, value: Value) -> (r: bool)
        ensures
            r == (index < old(self)@.len()),
            final(self)@ == if r {
                old(self)@.update(index as int, value)
            } else {
                old(self)@
            },
            old(self)@.len() <= usize::MAX,
    {
        if self.inner.len() <= index {
            false
        } else {
            self.inner[index] = value;
            true
        }
    }
}

/// The contents of each string of a heap.
pub open spec fn strings_view(strings: Seq<Vec<char>>) -> Seq<Seq<char>> {
    Seq::new(strings.len(), |i: int| strings[i]@)
}

/// The contents of each array of a heap.
pub open spec fn arrays_view(arrays: Seq<Array>) -> Seq<Seq<Value>> {
    Seq::new(arrays.len(), |i: int| arrays[i]@)
}

} // verus!
