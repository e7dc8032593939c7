//! What the compiler does, as mathematics: the compiler's state as a value,
//! and each rule of the grammar as a function from state to state and result.
//!
//! A rule that calls itself, directly or through others, does so on a state
//! with less input left. Where that is not plain from the text of the rule,
//! the rule tests it and is `stuck` otherwise. No run of the compiler is
//! ever stuck: what a function of the compiler returns is what its rule
//! gives, and no error that a function can return has `Stuck` as its view.

use vstd::prelude::*;
use crate::assemble::{encode_spec, is_branch, konsts_below};
use crate::bin::Instruction;
use crate::error::ErrorView;
use crate::machine::Machine;
use crate::number::{decimal_value, nearest, NEGATIVE_ONE};
use crate::scanner::next_spec;
use crate::text::{Token, TokenKind};
use crate::value::{Function, Value};

verus! {

/// The native that prints its argument.
pub const NATIVE_PRINT: usize = 0;

/// The native that gives the length of an array or a string.
pub const NATIVE_LEN: usize = 1;

/// The native that appends to an array.
pub const NATIVE_PUSH: usize = 2;

/// The native that takes the last element off an array.
pub const NATIVE_POP: usize = 3;

/// Where a statement that assigns or calls stands, after each part of it.
#[derive(Clone, Copy, Debug, PartialEq, Eq, Structural)]
pub enum AssignCallState {
    /// Behind a parenthesized expression or an array literal.
    InitialRvalue,
    /// Behind a call.
    Call,
    /// Behind the identifier that the statement starts with.
    Identifier(Token),
    /// Behind an index in brackets.
    Index,
}

impl AssignCallState {
    /// Whether `=` may follow: only a name and an indexed element take a value.
    pub open spec fn is_endable(&self) -> bool {
        *self is Identifier || *self is Index
    }

    #[verifier::when_used_as_spec(is_endable)]
    pub fn endable(&self) -> (r: bool)
        ensures
            r == self.is_endable(),
    {
        match self {
            AssignCallState::InitialRvalue | AssignCallState::Call => false,
            AssignCallState::Identifier(_) | AssignCallState::Index => true,
        }
    }
}

/// The index bound to `name` in `scope`, if any.
pub open spec fn find(scope: Seq<(Seq<char>, usize)>, name: Seq<char>) -> Option<usize>
    decreases scope.len(),
{
    if scope.len() == 0 {
        None
    } else if scope.last().0 == name {
        Some(scope.last().1)
    } else {
        find(scope.drop_last(), name)
    }
}

/// The index bound to `name` in the innermost scope that binds it, and
/// whether that scope is the global one, which is the first.
pub open spec fn lookup(scopes: Seq<Seq<(Seq<char>, usize)>>, name: Seq<char>) -> Option<
    (usize, bool),
>
    decreases scopes.len(),
{
    if scopes.len() == 0 {
        None
    } else {
        match find(scopes.last(), name) {
            Some(idx) => Some((idx, scopes.len() == 1)),
            None => lookup(scopes.drop_last(), name),
        }
    }
}

/// The number of bindings in all scopes but the global one.
pub open spec fn locals(scopes: Seq<Seq<(Seq<char>, usize)>>) -> nat
    decreases scopes.len(),
{
    if scopes.len() <= 1 {
        0
    } else {
        locals(scopes.drop_last()) + scopes.last().len()
    }
}

/// The binding power of a prefix operator.
pub open spec fn pwr_prefix(token: Token) -> Option<u32> {
    if token.kind == TokenKind::Single('+') || token.kind == TokenKind::Single('-') {
        Some(56)
    } else {
        None
    }
}

/// The binding power of what opens a call or an index.
pub open spec fn pwr_postfix(token: Token) -> Option<u32> {
    if token.kind == TokenKind::Single('(') || token.kind == TokenKind::Single('[') {
        Some(59)
    } else {
        None
    }
}

/// Whether an expression ends before `token` without a look at operators.
pub open spec fn closes(token: Token) -> bool {
    match token.kind {
        TokenKind::Single(c) => c == '}' || c == '{' || c == ',' || c == ')' || c == ']',
        TokenKind::Double => false,
        _ => true,
    }
}

/// The byte of `code` at `j`.
pub open spec fn byte_at(code: Seq<u8>, j: int) -> u8 {
    code[j]
}

/// The compiler's state.
pub struct State {
    /// The source text.
    pub text: Seq<char>,
    /// The scanner's position in it.
    pub ptr: usize,
    /// The token that was looked at and not yet taken.
    pub buffer: Option<Token>,
    /// The machine that the compiler writes code and constants into.
    pub vm: Machine,
    /// The scopes, innermost last; the first is the global scope.
    pub scopes: Seq<Seq<(Seq<char>, usize)>>,
    /// The next free local slot.
    pub offset: usize,
}

impl State {
    /// Where the input that is not yet taken begins.
    pub open spec fn frontier(self) -> nat {
        match self.buffer {
            Some(t) => t.from as nat,
            None => self.ptr as nat,
        }
    }

    /// How much input is left.
    pub open spec fn remaining(self) -> nat {
        (self.text.len() - self.frontier()) as nat
    }

    /// Whether the entry function is a function of the pool.
    pub open spec fn has_entry(self) -> bool {
        self.vm.entry < self.vm.constants.len() && self.vm.constants[self.vm.entry as int]
            is Function
    }

    /// What a rule gives where it could not be shown to come to an end.
    pub open spec fn stuck<T>(self) -> (State, Result<T, ErrorView>) {
        (self, Err(ErrorView::Stuck))
    }

    /// What holds of every state that the compiler reaches. The scanner is
    /// inside the text; the buffered token ends where the scanner stands and
    /// is empty only at the end. There is a global scope, whose bindings
    /// name constants of the pool. No name is bound twice in one scope.
    /// `offset` counts the local bindings, and each local binding's slot is
    /// below the count of the locals up to its own scope. The code is made
    /// of whole instructions, and each `konst` in it names a constant of the
    /// pool.
    pub open spec fn wf(self) -> bool {
        &&& self.text.len() <= usize::MAX
        &&& self.ptr <= self.text.len()
        &&& match self.buffer {
            Some(t) => t.from + t.len == self.ptr && (t.kind != TokenKind::EOF ==> t.len > 0),
            None => true,
        }
        &&& self.scopes.len() >= 1
        &&& self.indexed()
        &&& self.offset == locals(self.scopes)
        &&& forall|k: int, i: int, j: int|
            0 <= k < self.scopes.len() && 0 <= i < j < self.scopes[k].len() ==> (
            #[trigger] self.scopes[k][i]).0 != (#[trigger] self.scopes[k][j]).0
        &&& forall|j: int|
            0 <= j < self.scopes[0].len() ==> (#[trigger] self.scopes[0][j]).1
                < self.vm.constants.len()
        &&& forall|k: int, j: int|
            1 <= k < self.scopes.len() && 0 <= j < self.scopes[k].len() ==> (
            #[trigger] self.scopes[k][j]).1 < locals(self.scopes.take(k + 1))
    }

    /// What holds of the state behind a rule within a function, against the
    /// state before it: it advances from that state, the entry function is
    /// the same, and the code of before is still there, with more behind it.
    pub open spec fn follows(self, before: State) -> bool {
        &&& self.advances(before)
        &&& self.vm.entry == before.vm.entry
        &&& self.appends(before, before.vm.bin.len())
    }

    /// Whether the code is made of whole instructions, each `konst` of
    /// which names a constant of the pool.
    pub open spec fn indexed(self) -> bool {
        konsts_below(self.vm.bin, 0, self.vm.constants.len())
    }

    /// Whether `instruction`, if it is a `konst`, names a constant of the
    /// pool.
    pub open spec fn admits(self, instruction: Instruction) -> bool {
        match instruction {
            Instruction::Konst(k) => k < self.vm.constants.len(),
            _ => true,
        }
    }

    /// Whether a branch stands at `at`, where an instruction begins.
    pub open spec fn branch(self, at: usize) -> bool {
        &&& at + 3 <= self.vm.bin.len()
        &&& is_branch(self.vm.bin[at as int])
        &&& konsts_below(self.vm.bin.take(at as int), 0, self.vm.constants.len())
    }

    /// Whether the code of `before` is still there, with more behind it,
    /// but for the two bytes behind the place `upto`: the operand of a
    /// branch that stands there. With `upto` at the end of the code of
    /// `before`, all of that code is still there.
    pub open spec fn appends(self, before: State, upto: nat) -> bool {
        &&& before.vm.bin.len() <= self.vm.bin.len()
        &&& forall|j: int|
            0 <= j < before.vm.bin.len() && (j < upto || j > upto + 2 || j == upto)
                ==> #[trigger] byte_at(self.vm.bin, j) == byte_at(before.vm.bin, j)
    }

    /// What holds of the state behind a rule that sets the operand of the
    /// branch at `at`, against the state before it: as `follows`, but for
    /// the two operand bytes.
    pub open spec fn patches(self, before: State, at: usize) -> bool {
        &&& self.advances(before)
        &&& self.vm.entry == before.vm.entry
        &&& self.appends(before, at as nat)
    }

    /// Whether the scopes around the innermost one are those of `before`.
    pub open spec fn same_outer(self, before: State) -> bool {
        self.scopes.len() == before.scopes.len() && self.scopes.drop_last()
            == before.scopes.drop_last()
    }

    /// Whether the slots that the rest of the text can still declare have
    /// numbers: a declaration takes a token, so the slots in use and the
    /// characters left must together stay within the machine's integers.
    pub open spec fn fits(self) -> bool {
        self.offset + self.remaining() <= usize::MAX
    }

    /// What holds of the state behind any rule, against the state before it:
    /// what `keeps` says, and the slots in use have not grown by more than
    /// the input has shrunk.
    pub open spec fn advances(self, before: State) -> bool {
        &&& self.keeps(before)
        &&& self.offset + self.remaining() <= before.offset + before.remaining()
    }

    /// What holds of the state behind any step of the compiler, against the
    /// state before it: it is well-formed, reads the same text and has no
    /// more input left; the machine's stack, frames, error and arrays are
    /// untouched, and the constants of before are still in their places.
    pub open spec fn keeps(self, before: State) -> bool {
        &&& self.wf()
        &&& self.text == before.text
        &&& self.remaining() <= before.remaining()
        &&& self.vm.stack == before.vm.stack
        &&& self.vm.frames == before.vm.frames
        &&& self.vm.error == before.vm.error
        &&& self.vm.arrays == before.vm.arrays
        &&& before.vm.constants.len() <= self.vm.constants.len()
        &&& forall|k: int|
            0 <= k < before.vm.constants.len() ==> #[trigger] self.vm.constants[k]
                == before.vm.constants[k]
    }

    /// The next token from the scanner.
    pub open spec fn token(self) -> (State, Result<Token, ErrorView>) {
        let t = next_spec(self.text, self.ptr as int);
        let s = State { ptr: (t.from + t.len) as usize, ..self };
        if t.kind == TokenKind::Error {
            (s, Err(ErrorView::Scanner))
        } else {
            (s, Ok(t))
        }
    }

    /// Takes the next token.
    pub open spec fn pop(self) -> (State, Result<Token, ErrorView>) {
        match self.buffer {
            Some(t) => (State { buffer: None, ..self }, Ok(t)),
            None => self.token(),
        }
    }

    /// Looks at the next token without taking it.
    pub open spec fn peek(self) -> (State, Result<Token, ErrorView>) {
        match self.buffer {
            Some(t) => (self, Ok(t)),
            None => {
                let (s, r) = self.token();
                match r {
                    Ok(t) => (State { buffer: Some(t), ..s }, Ok(t)),
                    Err(e) => (s, Err(e)),
                }
            },
        }
    }

    /// Appends the encoded instruction to the code.
    pub open spec fn emit(self, instruction: Instruction) -> State {
        State {
            vm: Machine { bin: self.vm.bin + encode_spec(instruction), ..self.vm },
            ..self
        }
    }

    /// Takes the next token, which must be of kind `kind`.
    pub open spec fn expect(self, kind: TokenKind) -> (State, Result<Token, ErrorView>) {
        let (s, r) = self.pop();
        match r {
            Ok(t) => if t.kind != kind {
                (s, Err(ErrorView::UnexpectedToken(t)))
            } else {
                (s, Ok(t))
            },
            Err(e) => (s, Err(e)),
        }
    }

    /// The instruction of an infix operator.
    pub open spec fn compile_operator(self, token: Token) -> Option<Instruction> {
        match token.kind {
            TokenKind::Single(c) => if c == '+' {
                Some(Instruction::Add)
            } else if c == '-' {
                Some(Instruction::Sub)
            } else if c == '*' {
                Some(Instruction::Mult)
            } else if c == '/' {
                Some(Instruction::Div)
            } else if c == '%' {
                Some(Instruction::Mod)
            } else if c == '<' {
                Some(Instruction::Lt)
            } else if c == '>' {
                Some(Instruction::Gt)
            } else {
                None
            },
            TokenKind::Double => if token.text_of(self.text) == "=="@ {
                Some(Instruction::Eq)
            } else if token.text_of(self.text) == "!="@ {
                Some(Instruction::Ne)
            } else if token.text_of(self.text) == ">="@ {
                Some(Instruction::Ge)
            } else if token.text_of(self.text) == "<="@ {
                Some(Instruction::Le)
            } else {
                None
            },
            _ => None,
        }
    }

    /// The left and right binding powers of an infix operator.
    pub open spec fn pwr_infix(self, token: Token) -> Option<(u32, u32)> {
        match self.compile_operator(token) {
            Some(Instruction::Add) | Some(Instruction::Sub) => Some((51, 52)),
            Some(Instruction::Mult) | Some(Instruction::Div) | Some(Instruction::Mod) => Some(
                (53, 54),
            ),
            Some(_) => Some((49, 50)),
            None => None,
        }
    }

    /// What an identifier is bound to: an index, and whether it is global.
    pub open spec fn get_id(self, token: Token) -> Result<(usize, bool), ErrorView> {
        match lookup(self.scopes, token.text_of(self.text)) {
            Some(found) => Ok(found),
            None => Err(ErrorView::UnknownIdentifier(token)),
        }
    }

    /// The instruction that reads an identifier: a constant where it is
    /// global, a slot where it is local.
    pub open spec fn compile_load_id(self, token: Token) -> Result<Instruction, ErrorView> {
        match self.get_id(token) {
            Ok((idx, is_global)) => if is_global {
                Ok(Instruction::Konst(idx))
            } else {
                Ok(Instruction::Load(idx))
            },
            Err(e) => Err(e),
        }
    }

    /// The instruction that writes an identifier, which must be local.
    pub open spec fn compile_store_id(self, token: Token) -> Result<Instruction, ErrorView> {
        match self.get_id(token) {
            Ok((idx, is_global)) => if is_global {
                Err(ErrorView::Immutable(token))
            } else {
                Ok(Instruction::Store(idx))
            },
            Err(e) => Err(e),
        }
    }

    /// The state with one more constant in the pool.
    pub open spec fn with_constant(self, value: Value) -> State {
        State {
            vm: Machine { constants: self.vm.constants.push(value), ..self.vm },
            ..self
        }
    }

    /// The characters between the quotes of a literal.
    pub open spec fn literal(self, token: Token) -> Seq<char> {
        if token.len >= 2 {
            self.text.subrange(token.from + 1, token.from + token.len - 1)
        } else {
            Seq::empty()
        }
    }

    /// The instruction of a number, a literal, a keyword constant or an
    /// identifier; numbers and literals become new constants.
    pub open spec fn compile_atom(self, token: Token) -> (State, Result<Instruction, ErrorView>) {
        match token.kind {
            TokenKind::Number => (
                self.with_constant(Value::Number(nearest(decimal_value(token.text_of(self.text))))),
                Ok(Instruction::Konst(self.vm.constants.len() as usize)),
            ),
            TokenKind::Literal => (
                State {
                    vm: Machine {
                        constants: self.vm.constants.push(
                            Value::String(self.vm.strings.len() as usize),
                        ),
                        strings: self.vm.strings.push(self.literal(token)),
                        ..self.vm
                    },
                    ..self
                },
                Ok(Instruction::Konst(self.vm.constants.len() as usize)),
            ),
            TokenKind::True => (self, Ok(Instruction::True)),
            TokenKind::False => (self, Ok(Instruction::False)),
            TokenKind::Nil => (self, Ok(Instruction::Nil)),
            TokenKind::Identifier => (self, self.compile_load_id(token)),
            _ => (self, Err(ErrorView::UnexpectedToken(token))),
        }
    }

    /// Opens a scope.
    pub open spec fn new_scope(self) -> State {
        State { scopes: self.scopes.push(Seq::empty()), ..self }
    }

    /// Closes the innermost scope: its slots are free again, and where it
    /// held any, a `pop` of that many is emitted.
    pub open spec fn close_scope(self) -> State {
        let size = self.scopes.last().len();
        let freed = State {
            offset: (self.offset - size) as usize,
            scopes: self.scopes.drop_last(),
            ..self
        };
        if size > 0 {
            freed.emit(Instruction::Pop(size as usize))
        } else {
            freed
        }
    }

    /// Binds the identifier to the next free slot, in the innermost scope.
    pub open spec fn register_decl(self, token: Token) -> (State, Result<(), ErrorView>) {
        let name = token.text_of(self.text);
        if find(self.scopes.last(), name) is Some {
            (self, Err(ErrorView::MultipleDefinition(name)))
        } else {
            (
                State {
                    offset: (self.offset + 1) as usize,
                    scopes: self.scopes.update(
                        self.scopes.len() - 1,
                        self.scopes.last().push((name, self.offset)),
                    ),
                    ..self
                },
                Ok(()),
            )
        }
    }

    /// Binds `name` to the constant `idx`, in the global scope.
    pub open spec fn register_const(self, name: Seq<char>, idx: usize) -> (
        State,
        Result<(), ErrorView>,
    ) {
        if find(self.scopes[0], name) is Some {
            (self, Err(ErrorView::MultipleDefinition(name)))
        } else {
            (State { scopes: self.scopes.update(0, self.scopes[0].push((name, idx))), ..self }, Ok(()))
        }
    }

    /// The end of an expression whose first part began with `token`: calls
    /// and indexes, where `token` allows them, and infix operators that bind
    /// at least as tightly as `pwr`.
    pub open spec fn expr_tail(self, token: Token, pwr: u32) -> (State, Result<(), ErrorView>)
        decreases self.remaining(), 0nat,
    {
        let (s1, peeked) = self.peek();
        match peeked {
            Err(e) => (s1, Err(e)),
            Ok(t) => if closes(t) {
                (s1, Ok(()))
            } else if pwr_postfix(t) is Some {
                if (token.kind != TokenKind::Identifier && token.kind != TokenKind::Single('(')
                    && token.kind != TokenKind::Single('[')) || pwr > 59 {
                    (s1, Ok(()))
                } else {
                    let (s2, _) = s1.pop();
                    if s2.remaining() >= self.remaining() {
                        s2.stuck()
                    } else if t.kind == TokenKind::Single('(') {
                        let (s3, r3) = s2.explist(')');
                        match r3 {
                            Err(e) => (s3, Err(e)),
                            Ok(argc) => if s3.remaining() < self.remaining() {
                                s3.emit(Instruction::Call(argc)).expr_tail(token, pwr)
                            } else {
                                s3.stuck()
                            },
                        }
                    } else {
                        let (s3, r3) = s2.expr();
                        match r3 {
                            Err(e) => (s3, Err(e)),
                            Ok(_) => {
                                let (s4, r4) = s3.expect(TokenKind::Single(']'));
                                match r4 {
                                    Err(e) => (s4, Err(e)),
                                    Ok(_) => if s4.remaining() < self.remaining() {
                                        s4.emit(Instruction::Get).expr_tail(token, pwr)
                                    } else {
                                        s4.stuck()
                                    },
                                }
                            },
                        }
                    }
                }
            } else {
                match s1.pwr_infix(t) {
                    None => (s1, Err(ErrorView::UnexpectedToken(t))),
                    Some((lp, rp)) => if pwr > lp {
                        (s1, Ok(()))
                    } else {
                        let (s2, _) = s1.pop();
                        if s2.remaining() >= self.remaining() {
                            s2.stuck()
                        } else {
                            let (s3, r3) = s2.expr_p(rp);
                            match r3 {
                                Err(e) => (s3, Err(e)),
                                Ok(_) => if s3.remaining() < self.remaining() {
                                    s3.emit(s1.compile_operator(t)->0).expr_tail(token, pwr)
                                } else {
                                    s3.stuck()
                                },
                            }
                        }
                    },
                }
            },
        }
    }

    /// The code that turns the sign of the number on top of the stack: a
    /// multiplication by `-1.0`, which becomes a new constant.
    pub open spec fn negate(self) -> State {
        self.with_constant(Value::Number(NEGATIVE_ONE)).emit(
            Instruction::Konst(self.vm.constants.len() as usize),
        ).emit(Instruction::Mult)
    }

    /// The first part of an expression: a prefix operator with its operand,
    /// an expression in parentheses, an array literal, or an atom. A prefix
    /// `-` multiplies its operand by the constant `-1.0`. Gives the token
    /// that the part began with.
    pub open spec fn primary(self) -> (State, Result<Token, ErrorView>)
        decreases self.remaining(), 1nat,
    {
        let (s1, popped) = self.pop();
        match popped {
            Err(e) => (s1, Err(e)),
            Ok(token) => if pwr_prefix(token) is Some {
                if s1.remaining() >= self.remaining() {
                    s1.stuck()
                } else {
                    let (s, r) = s1.expr_p(56);
                    match r {
                        Err(e) => (s, Err(e)),
                        Ok(_) => if token.kind == TokenKind::Single('-') {
                            (s.negate(), Ok(token))
                        } else {
                            (s, Ok(token))
                        },
                    }
                }
            } else if token.kind == TokenKind::Single('(') {
                if s1.remaining() >= self.remaining() {
                    s1.stuck()
                } else {
                    let (s, r) = s1.expr();
                    match r {
                        Err(e) => (s, Err(e)),
                        Ok(_) => {
                            let (closed, r) = s.expect(TokenKind::Single(')'));
                            match r {
                                Err(e) => (closed, Err(e)),
                                Ok(_) => (closed, Ok(token)),
                            }
                        },
                    }
                }
            } else if token.kind == TokenKind::Single('[') {
                if s1.remaining() >= self.remaining() {
                    s1.stuck()
                } else {
                    let (s, r) = s1.explist(']');
                    match r {
                        Err(e) => (s, Err(e)),
                        Ok(count) => (s.emit(Instruction::Anew(count)), Ok(token)),
                    }
                }
            } else {
                let (s, r) = s1.compile_atom(token);
                match r {
                    Err(e) => (s, Err(e)),
                    Ok(i) => (s.emit(i), Ok(token)),
                }
            },
        }
    }

    /// An expression whose infix operators bind at least as tightly as `pwr`:
    /// its first part and its end.
    pub open spec fn expr_p(self, pwr: u32) -> (State, Result<(), ErrorView>)
        decreases self.remaining(), 2nat,
    {
        let (s1, r1) = self.primary();
        match r1 {
            Err(e) => (s1, Err(e)),
            Ok(token) => if s1.remaining() < self.remaining() {
                s1.expr_tail(token, pwr)
            } else {
                s1.stuck()
            },
        }
    }

    /// An expression.
    pub open spec fn expr(self) -> (State, Result<(), ErrorView>)
        decreases self.remaining(), 3nat,
    {
        self.expr_p(0)
    }

    /// The rest of a list of expressions, `count` of them read already: one
    /// more expression, then `end` or a comma and the rest.
    pub open spec fn explist_tail(self, end: char, count: usize) -> (
        State,
        Result<usize, ErrorView>,
    )
        decreases self.remaining(), 4nat,
    {
        let (s1, r1) = self.expr();
        match r1 {
            Err(e) => (s1, Err(e)),
            Ok(_) => {
                let (s2, peeked) = s1.peek();
                match peeked {
                    Err(e) => (s2, Err(e)),
                    Ok(t) => if t.kind == TokenKind::Single(end) {
                        (s2.pop().0, Ok((count + 1) as usize))
                    } else {
                        let (s3, r3) = s2.expect(TokenKind::Single(','));
                        match r3 {
                            Err(e) => (s3, Err(e)),
                            Ok(_) => if s3.remaining() < self.remaining() {
                                s3.explist_tail(end, (count + 1) as usize)
                            } else {
                                s3.stuck()
                            },
                        }
                    },
                }
            },
        }
    }

    /// A list of expressions, separated by commas and closed by `end`, whose
    /// opening bracket is taken already. Gives the number of expressions.
    pub open spec fn explist(self, end: char) -> (State, Result<usize, ErrorView>)
        decreases self.remaining(), 5nat,
    {
        let (s1, peeked) = self.peek();
        match peeked {
            Err(e) => (s1, Err(e)),
            Ok(t) => if t.kind == TokenKind::Single(end) {
                (s1.pop().0, Ok(0))
            } else if s1.remaining() <= self.remaining() {
                s1.explist_tail(end, 0)
            } else {
                s1.stuck()
            },
        }
    }

    /// One declared variable: the name takes the next free slot, and the
    /// value of the expression behind `=`, or `nil`, comes to lie in it.
    pub open spec fn var_decl(self) -> (State, Result<(), ErrorView>) {
        let (s1, r1) = self.expect(TokenKind::Identifier);
        match r1 {
            Err(e) => (s1, Err(e)),
            Ok(id) => {
                let (s2, r2) = s1.register_decl(id);
                match r2 {
                    Err(e) => (s2, Err(e)),
                    Ok(_) => {
                        let (s3, r3) = s2.peek();
                        match r3 {
                            Err(e) => (s3, Err(e)),
                            Ok(t) => if t.kind == TokenKind::Single('=') {
                                s3.pop().0.expr()
                            } else {
                                (s3.emit(Instruction::Nil), Ok(()))
                            },
                        }
                    },
                }
            },
        }
    }

    /// The declarations that follow the first of a `let`, each behind a comma.
    pub open spec fn var_decls(self) -> (State, Result<(), ErrorView>)
        decreases self.remaining(),
    {
        let (s1, r1) = self.peek();
        match r1 {
            Err(e) => (s1, Err(e)),
            Ok(t) => if t.kind == TokenKind::Single(',') {
                let (s2, r2) = s1.pop().0.var_decl();
                match r2 {
                    Err(e) => (s2, Err(e)),
                    Ok(_) => if s2.remaining() < self.remaining() {
                        s2.var_decls()
                    } else {
                        s2.stuck()
                    },
                }
            } else {
                (s1, Ok(()))
            },
        }
    }

    /// What follows a `return` in its block is never run: the tokens up to
    /// the next `}` are passed over.
    pub open spec fn skip_rest(self) -> (State, Result<(), ErrorView>)
        decreases self.remaining(),
    {
        let (s1, r1) = self.peek();
        match r1 {
            Err(e) => (s1, Err(e)),
            Ok(t) => if t.kind == TokenKind::Single('}') || t.kind == TokenKind::EOF {
                (s1, Ok(()))
            } else {
                let (s2, _) = s1.pop();
                if s2.remaining() < self.remaining() {
                    s2.skip_rest()
                } else {
                    s2.stuck()
                }
            },
        }
    }

    /// Before a call or an index is added to a name or to an indexed
    /// element, that is read: the name is loaded, the element got.
    pub open spec fn flush_lvalue(self, state: AssignCallState) -> (State, Result<(), ErrorView>) {
        match state {
            AssignCallState::Identifier(token) => match self.compile_load_id(token) {
                Ok(i) => (self.emit(i), Ok(())),
                Err(e) => (self, Err(e)),
            },
            AssignCallState::Index => (self.emit(Instruction::Get), Ok(())),
            _ => (self, Ok(())),
        }
    }

    /// The end of an assignment, behind `=`, which stood at `tkn`: the value,
    /// and a `store` into the name or a `set` of the indexed element.
    pub open spec fn assign_value(self, state: AssignCallState, tkn: Token) -> (
        State,
        Result<(), ErrorView>,
    ) {
        if state.is_endable() {
            let (s1, r1) = self.expr();
            match r1 {
                Err(e) => (s1, Err(e)),
                Ok(_) => match state {
                    AssignCallState::Identifier(token) => match s1.compile_store_id(token) {
                        Ok(i) => (s1.emit(i), Ok(())),
                        Err(e) => (s1, Err(e)),
                    },
                    _ => (s1.emit(Instruction::SetAt), Ok(())),
                },
            }
        } else {
            (self, Err(ErrorView::UnexpectedToken(tkn)))
        }
    }

    /// An index, behind `[`: what stands before it is read, then the index.
    pub open spec fn index_part(self, state: AssignCallState) -> (State, Result<(), ErrorView>) {
        let (s1, r1) = self.flush_lvalue(state);
        match r1 {
            Err(e) => (s1, Err(e)),
            Ok(_) => {
                let (s2, r2) = s1.expr();
                match r2 {
                    Err(e) => (s2, Err(e)),
                    Ok(_) => {
                        let (s3, r3) = s2.expect(TokenKind::Single(']'));
                        match r3 {
                            Err(e) => (s3, Err(e)),
                            Ok(_) => (s3, Ok(())),
                        }
                    },
                }
            },
        }
    }

    /// A call, behind `(`: what stands before it is read, then the
    /// arguments, then it is called.
    pub open spec fn call_part(self, state: AssignCallState) -> (State, Result<(), ErrorView>) {
        let (s1, r1) = self.flush_lvalue(state);
        match r1 {
            Err(e) => (s1, Err(e)),
            Ok(_) => {
                let (s2, r2) = s1.explist(')');
                match r2 {
                    Err(e) => (s2, Err(e)),
                    Ok(count) => (s2.emit(Instruction::Call(count)), Ok(())),
                }
            },
        }
    }

    /// One part of the rest of a statement that assigns or calls: an index,
    /// a call, or the end. `=` ends the statement with an assignment;
    /// anything else ends it before that token, behind a call, whose result
    /// is then discarded. Gives where the statement stands after the part,
    /// or nothing at its end.
    #[verifier::opaque]
    pub open spec fn assign_step(self, state: AssignCallState) -> (
        State,
        Result<Option<AssignCallState>, ErrorView>,
    ) {
        let (s1, r1) = self.peek();
        match r1 {
            Err(e) => (s1, Err(e)),
            Ok(tkn) => if tkn.kind == TokenKind::Single('=') {
                let (s2, r2) = s1.pop().0.assign_value(state, tkn);
                match r2 {
                    Err(e) => (s2, Err(e)),
                    Ok(_) => (s2, Ok(None)),
                }
            } else if tkn.kind == TokenKind::Single('[') {
                let (s2, r2) = s1.pop().0.index_part(state);
                match r2 {
                    Err(e) => (s2, Err(e)),
                    Ok(_) => (s2, Ok(Some(AssignCallState::Index))),
                }
            } else if tkn.kind == TokenKind::Single('(') {
                let (s2, r2) = s1.pop().0.call_part(state);
                match r2 {
                    Err(e) => (s2, Err(e)),
                    Ok(_) => (s2, Ok(Some(AssignCallState::Call))),
                }
            } else if state == AssignCallState::Call {
                (s1.emit(Instruction::Pop(1)), Ok(None))
            } else {
                (s1, Err(ErrorView::UnexpectedToken(tkn)))
            },
        }
    }

    /// The rest of a statement that assigns or calls: its parts, one after
    /// the other.
    pub open spec fn assign_tail(self, state: AssignCallState) -> (State, Result<(), ErrorView>)
        decreases self.remaining(),
    {
        let (s1, r1) = self.assign_step(state);
        match r1 {
            Err(e) => (s1, Err(e)),
            Ok(None) => (s1, Ok(())),
            Ok(Some(next)) => if s1.remaining() < self.remaining() {
                s1.assign_tail(next)
            } else {
                s1.stuck()
            },
        }
    }

    /// A statement that assigns or calls. It starts with an identifier, a
    /// parenthesized expression or an array literal.
    pub open spec fn assign_call(self) -> (State, Result<(), ErrorView>) {
        let (s1, r1) = self.pop();
        match r1 {
            Err(e) => (s1, Err(e)),
            Ok(tkn) => if tkn.kind == TokenKind::Single('(') {
                let (s2, r2) = s1.expr();
                match r2 {
                    Err(e) => (s2, Err(e)),
                    Ok(_) => {
                        let (s3, r3) = s2.expect(TokenKind::Single(')'));
                        match r3 {
                            Err(e) => (s3, Err(e)),
                            Ok(_) => s3.assign_tail(AssignCallState::InitialRvalue),
                        }
                    },
                }
            } else if tkn.kind == TokenKind::Single('[') {
                let (s2, r2) = s1.explist(']');
                match r2 {
                    Err(e) => (s2, Err(e)),
                    Ok(count) => s2.emit(Instruction::Anew(count)).assign_tail(
                        AssignCallState::InitialRvalue,
                    ),
                }
            } else if tkn.kind == TokenKind::Identifier {
                s1.assign_tail(AssignCallState::Identifier(tkn))
            } else {
                (s1, Err(ErrorView::UnexpectedToken(tkn)))
            },
        }
    }

    /// Sets the two operand bytes of the branch at `at` so that it leads
    /// forward to the end of the code written so far, which must lie below
    /// two to the 16.
    pub open spec fn patch(self, at: usize) -> (State, Result<(), ErrorView>) {
        let offset = self.vm.bin.len() - (at + 3);
        if offset < 0 || self.vm.bin.len() > 0xffff {
            (self, Err(ErrorView::BranchTooFar))
        } else {
            (
                State {
                    vm: Machine {
                        bin: self.vm.bin.update(at + 1, (offset / 256) as u8).update(
                            at + 2,
                            (offset % 256) as u8,
                        ),
                        ..self.vm
                    },
                    ..self
                },
                Ok(()),
            )
        }
    }

    /// Emits the `jmp` that leads back to `start`. The place behind the
    /// `jmp` must lie below two to the 16.
    pub open spec fn jump_back(self, start: usize) -> (State, Result<(), ErrorView>) {
        let behind = self.vm.bin.len() + 3;
        if behind > 0xffff || start > behind {
            (self, Err(ErrorView::BranchTooFar))
        } else {
            (self.emit(Instruction::Jmp(((0x1_0000 - (behind - start)) % 0x1_0000) as u16)), Ok(()))
        }
    }

    /// The condition of an `if` or a `while`, up to the brace that opens
    /// the block: the expression, and a `cjmp` whose operand is yet to be
    /// set. Gives the place of the `cjmp`.
    pub open spec fn condition(self) -> (State, Result<usize, ErrorView>) {
        let (s1, r1) = self.expr();
        match r1 {
            Err(e) => (s1, Err(e)),
            Ok(_) => {
                let (s2, r2) = s1.expect(TokenKind::Single('{'));
                match r2 {
                    Err(e) => (s2, Err(e)),
                    Ok(_) => (s2.emit(Instruction::Cjmp(0)), Ok(s2.vm.bin.len() as usize)),
                }
            },
        }
    }

    /// A `while`: the condition, a `cjmp` that leaves the loop where the
    /// condition is false, the block, and a `jmp` back to the condition.
    pub open spec fn while_stmt(self) -> (State, Result<(), ErrorView>)
        decreases self.remaining(), 1nat,
    {
        let (s1, r1) = self.expect(TokenKind::While);
        match r1 {
            Err(e) => (s1, Err(e)),
            Ok(_) => {
                let (s2, r2) = s1.condition();
                match r2 {
                    Err(e) => (s2, Err(e)),
                    Ok(at) => if s2.remaining() >= self.remaining() {
                        s2.stuck()
                    } else {
                        let (s3, r3) = s2.block(TokenKind::Single('}'));
                        match r3 {
                            Err(e) => (s3, Err(e)),
                            Ok(_) => {
                                let (s4, r4) = s3.jump_back(s1.vm.bin.len() as usize);
                                match r4 {
                                    Err(e) => (s4, Err(e)),
                                    Ok(_) => s4.patch(at),
                                }
                            },
                        }
                    },
                }
            },
        }
    }

    /// What follows the block of an `if` whose `cjmp` stands at `at`. With
    /// an `else`, a `jmp` over the second block ends the first, the `cjmp`
    /// leads behind that `jmp`, and the `jmp` to the end of the second
    /// block. Without, the `cjmp` leads to the end of the first block.
    pub open spec fn otherwise(self, at: usize) -> (State, Result<(), ErrorView>)
        decreases self.remaining(), 0nat,
    {
        let (s1, r1) = self.peek();
        match r1 {
            Err(e) => (s1, Err(e)),
            Ok(t) => if t.kind != TokenKind::Else {
                s1.patch(at)
            } else {
                let s2 = s1.pop().0;
                let (s3, r3) = s2.emit(Instruction::Jmp(0)).patch(at);
                match r3 {
                    Err(e) => (s3, Err(e)),
                    Ok(_) => {
                        let (s4, r4) = s3.expect(TokenKind::Single('{'));
                        match r4 {
                            Err(e) => (s4, Err(e)),
                            Ok(_) => if s4.remaining() >= self.remaining() {
                                s4.stuck()
                            } else {
                                let (s5, r5) = s4.block(TokenKind::Single('}'));
                                match r5 {
                                    Err(e) => (s5, Err(e)),
                                    Ok(_) => s5.patch(s2.vm.bin.len() as usize),
                                }
                            },
                        }
                    },
                }
            },
        }
    }

    /// An `if`: the condition, a `cjmp` that branches over the block where
    /// the condition is false, the block, and what follows it.
    pub open spec fn if_stmt(self) -> (State, Result<(), ErrorView>)
        decreases self.remaining(), 1nat,
    {
        let (s1, r1) = self.expect(TokenKind::If);
        match r1 {
            Err(e) => (s1, Err(e)),
            Ok(_) => {
                let (s2, r2) = s1.condition();
                match r2 {
                    Err(e) => (s2, Err(e)),
                    Ok(at) => if s2.remaining() >= self.remaining() {
                        s2.stuck()
                    } else {
                        let (s3, r3) = s2.block(TokenKind::Single('}'));
                        match r3 {
                            Err(e) => (s3, Err(e)),
                            Ok(_) => if s3.remaining() >= self.remaining() {
                                s3.stuck()
                            } else {
                                s3.otherwise(at)
                            },
                        }
                    },
                }
            },
        }
    }

    /// A statement: a block in braces, a `let`, a `return`, an `if`, a
    /// `while`, or a statement that assigns or calls.
    pub open spec fn stmt(self) -> (State, Result<(), ErrorView>)
        decreases self.remaining(), 2nat,
    {
        let (s1, r1) = self.peek();
        match r1 {
            Err(e) => (s1, Err(e)),
            Ok(t) => if t.kind == TokenKind::Single('{') {
                let (s2, _) = s1.pop();
                if s2.remaining() < self.remaining() {
                    s2.block(TokenKind::Single('}'))
                } else {
                    s2.stuck()
                }
            } else if t.kind == TokenKind::Let {
                let (s2, r2) = s1.pop().0.var_decl();
                match r2 {
                    Err(e) => (s2, Err(e)),
                    Ok(_) => s2.var_decls(),
                }
            } else if t.kind == TokenKind::Return {
                let (s2, r2) = s1.pop().0.expr();
                match r2 {
                    Err(e) => (s2, Err(e)),
                    Ok(_) => s2.emit(Instruction::Ret).skip_rest(),
                }
            } else if t.kind == TokenKind::If {
                if s1.remaining() <= self.remaining() {
                    s1.if_stmt()
                } else {
                    s1.stuck()
                }
            } else if t.kind == TokenKind::While {
                if s1.remaining() <= self.remaining() {
                    s1.while_stmt()
                } else {
                    s1.stuck()
                }
            } else {
                s1.assign_call()
            },
        }
    }

    /// The statements of a block, up to the token `end`, which is looked
    /// at and not taken.
    pub open spec fn block_body(self, end: TokenKind) -> (State, Result<(), ErrorView>)
        decreases self.remaining(), 3nat,
    {
        let (s1, r1) = self.peek();
        match r1 {
            Err(e) => (s1, Err(e)),
            Ok(t) => if t.kind == end {
                (s1, Ok(()))
            } else if s1.remaining() <= self.remaining() {
                let (s2, r2) = s1.stmt();
                match r2 {
                    Err(e) => (s2, Err(e)),
                    Ok(_) => if s2.remaining() < self.remaining() {
                        s2.block_body(end)
                    } else {
                        s2.stuck()
                    },
                }
            } else {
                s1.stuck()
            },
        }
    }

    /// A block, whose opening brace is taken already: a new scope, the
    /// statements, the end of the scope, which frees the slots that the
    /// block's own declarations took and emits the `pop` of that many, and
    /// the token `end`.
    pub open spec fn block(self, end: TokenKind) -> (State, Result<(), ErrorView>)
        decreases self.remaining(), 4nat,
    {
        let (s1, r1) = self.new_scope().block_body(end);
        match r1 {
            Err(e) => (s1, Err(e)),
            Ok(_) => (s1.close_scope().pop().0, Ok(())),
        }
    }

    /// The parameters that follow the first, each behind a comma, up to the
    /// closing parenthesis; `count` are declared already.
    pub open spec fn paramlist_tail(self, count: usize) -> (State, Result<usize, ErrorView>)
        decreases self.remaining(),
    {
        let (s1, r1) = self.peek();
        match r1 {
            Err(e) => (s1, Err(e)),
            Ok(t) => if t.kind == TokenKind::Single(',') {
                let (s2, r2) = s1.pop().0.expect(TokenKind::Identifier);
                match r2 {
                    Err(e) => (s2, Err(e)),
                    Ok(id) => {
                        let (s3, r3) = s2.register_decl(id);
                        match r3 {
                            Err(e) => (s3, Err(e)),
                            Ok(_) => if s3.remaining() < self.remaining() {
                                s3.paramlist_tail((count + 1) as usize)
                            } else {
                                s3.stuck()
                            },
                        }
                    },
                }
            } else {
                let (s2, r2) = s1.expect(TokenKind::Single(')'));
                match r2 {
                    Err(e) => (s2, Err(e)),
                    Ok(_) => (s2, Ok(count)),
                }
            },
        }
    }

    /// The parameters of a function, in parentheses: each takes the next
    /// free slot. Gives their number.
    pub open spec fn paramlist(self) -> (State, Result<usize, ErrorView>) {
        let (s1, r1) = self.expect(TokenKind::Single('('));
        match r1 {
            Err(e) => (s1, Err(e)),
            Ok(_) => {
                let (s2, r2) = s1.peek();
                match r2 {
                    Err(e) => (s2, Err(e)),
                    Ok(t) => if t.kind == TokenKind::Single(')') {
                        (s2.pop().0, Ok(0))
                    } else {
                        let (s3, r3) = s2.expect(TokenKind::Identifier);
                        match r3 {
                            Err(e) => (s3, Err(e)),
                            Ok(id) => {
                                let (s4, r4) = s3.register_decl(id);
                                match r4 {
                                    Err(e) => (s4, Err(e)),
                                    Ok(_) => s4.paramlist_tail(1),
                                }
                            },
                        }
                    },
                }
            },
        }
    }

    /// A function, whose `fn` is taken already: the name, the parameters in
    /// a scope that starts at slot 0, and the body. The function becomes a
    /// constant whose code starts where the body's code does, its name a
    /// global binding; a body that does not return gives `nil`. Tells
    /// whether the function is `main`, which makes it the entry function.
    pub open spec fn function_body(self) -> (State, Result<bool, ErrorView>) {
        let (s1, r1) = self.expect(TokenKind::Identifier);
        match r1 {
            Err(e) => (s1, Err(e)),
            Ok(id) => {
                let (s2, r2) = (State { offset: 0, ..s1 }).new_scope().paramlist();
                match r2 {
                    Err(e) => (s2, Err(e)),
                    Ok(param_count) => {
                        let is_main = id.text_of(self.text) == "main"@;
                        let idx = s2.vm.constants.len() as usize;
                        let s3 = State {
                            vm: Machine {
                                constants: s2.vm.constants.push(
                                    Value::Function(
                                        Function::Bakht {
                                            param_count,
                                            address: s2.vm.bin.len() as usize,
                                        },
                                    ),
                                ),
                                entry: if is_main {
                                    idx
                                } else {
                                    s2.vm.entry
                                },
                                ..s2.vm
                            },
                            ..s2
                        };
                        let (s4, r4) = s3.register_const(id.text_of(self.text), idx);
                        match r4 {
                            Err(e) => (s4, Err(e)),
                            Ok(_) => {
                                let (s5, r5) = s4.expect(TokenKind::Single('{'));
                                match r5 {
                                    Err(e) => (s5, Err(e)),
                                    Ok(_) => {
                                        let (s6, r6) = s5.block(TokenKind::Single('}'));
                                        match r6 {
                                            Err(e) => (s6, Err(e)),
                                            Ok(_) => (
                                                s6.emit(Instruction::Nil).emit(
                                                    Instruction::Ret,
                                                ).close_scope(),
                                                Ok(is_main),
                                            ),
                                        }
                                    },
                                }
                            },
                        }
                    },
                }
            },
        }
    }

    /// The functions of a source up to its end; `has_main` tells whether
    /// `main` was among those read before.
    pub open spec fn source_tail(self, has_main: bool) -> (State, Result<(), ErrorView>)
        decreases self.remaining(),
    {
        let (s1, r1) = self.peek();
        match r1 {
            Err(e) => (s1, Err(e)),
            Ok(t) => {
                let (s2, _) = s1.pop();
                if t.kind == TokenKind::EOF {
                    if has_main {
                        (s2, Ok(()))
                    } else {
                        (s2, Err(ErrorView::NoMainFunction))
                    }
                } else if t.kind == TokenKind::Fn {
                    let (s3, r3) = s2.function_body();
                    match r3 {
                        Err(e) => (s3, Err(e)),
                        Ok(is_main) => if s3.remaining() < self.remaining() {
                            s3.source_tail(has_main || is_main)
                        } else {
                            s3.stuck()
                        },
                    }
                } else {
                    (s2, Err(ErrorView::UnexpectedToken(t)))
                }
            },
        }
    }

    /// A source: functions, one of which must be `main`.
    pub open spec fn source(self) -> (State, Result<(), ErrorView>) {
        self.source_tail(false)
    }

    /// Makes the native `func` of the host, with `param_count` parameters, a
    /// constant and binds `name` to it.
    pub open spec fn native(self, name: Seq<char>, func: usize, param_count: usize) -> (
        State,
        Result<(), ErrorView>,
    ) {
        self.with_constant(Value::Function(Function::Native { param_count, func })).register_const(
            name,
            self.vm.constants.len() as usize,
        )
    }

    /// The natives that every script can call: `print`, `len`, `push`, `pop`.
    pub open spec fn libs(self) -> (State, Result<(), ErrorView>) {
        let (s1, r1) = self.native("print"@, NATIVE_PRINT, 1);
        match r1 {
            Err(e) => (s1, Err(e)),
            Ok(_) => {
                let (s2, r2) = s1.native("len"@, NATIVE_LEN, 1);
                match r2 {
                    Err(e) => (s2, Err(e)),
                    Ok(_) => {
                        let (s3, r3) = s2.native("push"@, NATIVE_PUSH, 2);
                        match r3 {
                            Err(e) => (s3, Err(e)),
                            Ok(_) => s3.native("pop"@, NATIVE_POP, 1),
                        }
                    },
                }
            },
        }
    }

    /// A whole compilation: the natives, then the source.
    pub open spec fn compile(self) -> (State, Result<(), ErrorView>) {
        let (s1, r1) = self.libs();
        match r1 {
            Err(e) => (s1, Err(e)),
            Ok(_) => s1.source(),
        }
    }
}

} // verus!
