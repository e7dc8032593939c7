//! The natives that every script can call. Each takes its arguments from
//! the stack and leaves one value there, or an error in the machine.

use vstd::prelude::*;
use crate::error::{Error, ErrorView};
use crate::grammar::{NATIVE_LEN, NATIVE_POP, NATIVE_PRINT, NATIVE_PUSH};
use crate::machine::Machine;
use crate::script::{host_value, BakhtScript, BakhtValue, BakhtValueView};
use crate::value::Value;

verus! {

/// `print`: pops a value and pushes `nil`. Gives what the host sees of the
/// value, for the host to write out.
pub fn bakht_print(bakht: &mut BakhtScript) -> (r: BakhtValue)
    requires
        old(bakht)@.sp() >= 1,
    ensures
        r@ == host_value(old(bakht)@, old(bakht)@.peek(0)),
        final(bakht)@ == old(bakht)@.drop(1).push(Value::Nil),
{
    let value = bakht.pop();
    bakht.push_nil();
    value
}

/// `push`: appends an element to an array and pushes `nil`.
pub fn bakht_push(bakht: &mut BakhtScript)
    requires
        old(bakht)@.sp() >= 2,
    ensures
        final(bakht)@ == old(bakht)@.array_push().push(Value::Nil),
{
    bakht.array_push();
    bakht.push_nil();
}

/// `pop`: takes the last element off an array and pushes it.
pub fn bakht_pop(bakht: &mut BakhtScript)
    requires
        old(bakht)@.sp() >= 1,
    ensures
        final(bakht)@ == old(bakht)@.array_pop(),
{
    bakht.array_pop();
}

/// `len`: pushes the length of an array or a string.
pub fn bakht_len(bakht: &mut BakhtScript)
    requires
        old(bakht)@.sp() >= 1,
    ensures
        final(bakht)@ == old(bakht)@.array_len(),
{
    bakht.array_len();
}

/// The number of arguments that the native numbered `func` takes; zero for
/// a number that no native has.
pub open spec fn native_params(func: usize) -> nat {
    if func == NATIVE_PUSH {
        2
    } else if func == NATIVE_PRINT || func == NATIVE_LEN || func == NATIVE_POP {
        1
    } else {
        0
    }
}

/// What the native numbered `func` makes of the machine `m`, and the value
/// that the host is to write out, if any. A number that no native has, and
/// a stack that holds fewer values than the native takes, are errors.
pub open spec fn native_spec(m: Machine, func: usize) -> (Machine, Option<BakhtValueView>) {
    if native_params(func) == 0 {
        (m.fault(ErrorView::CallingNonFunction), None)
    } else if m.sp() < native_params(func) {
        (m.fault(ErrorView::InvalidBytecode), None)
    } else if func == NATIVE_PRINT {
        (m.drop(1).push(Value::Nil), Some(host_value(m, m.peek(0))))
    } else if func == NATIVE_LEN {
        (m.array_len(), None)
    } else if func == NATIVE_PUSH {
        (m.array_push().push(Value::Nil), None)
    } else {
        (m.array_pop(), None)
    }
}

/// Runs the native numbered `func` on the arguments that the machine has
/// put on the stack. Gives the value that the host is to write out, where
/// the native is `print`.
pub fn bakht_native(bakht: &mut BakhtScript, func: usize) -> (r: Option<BakhtValue>)
    ensures
        final(bakht)@ == native_spec(old(bakht)@, func).0,
        match r {
            Some(value) => Some(value@) == native_spec(old(bakht)@, func).1,
            None => native_spec(old(bakht)@, func).1 is None,
        },
{
    let needed: usize = if func == NATIVE_PUSH {
        2
    } else if func == NATIVE_PRINT || func == NATIVE_LEN || func == NATIVE_POP {
        1
    } else {
        bakht.fail(Error::CallingNonFunction);
        return None;
    };
    if bakht.sp() < needed {
        bakht.fail(Error::InvalidBytecode);
        return None;
    }
    if func == NATIVE_PRINT {
        Some(bakht_print(bakht))
    } else if func == NATIVE_LEN {
        bakht_len(bakht);
        None
    } else if func == NATIVE_PUSH {
        bakht_push(bakht);
        None
    } else {
        bakht_pop(bakht);
        None
    }
}

} // verus!
