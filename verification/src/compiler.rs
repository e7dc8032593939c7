//! The compiler: a single pass over the tokens that writes bytecode and
//! constants into a machine while it resolves names through a stack of
//! scopes.

use vstd::prelude::*;
use vstd::string::StringExecFns;
use crate::assemble::{
    encode, encode_spec, konsts_below, lemma_konsts_append, lemma_konsts_patch, lemma_konsts_pool,
};
use crate::bin::Instruction;
use crate::error::{result_view, Error, ErrorView};
use crate::grammar::{
    byte_at, closes, find, locals, lookup, pwr_postfix, pwr_prefix, AssignCallState, State, NATIVE_LEN,
    NATIVE_POP, NATIVE_PRINT, NATIVE_PUSH,
};
use crate::number::{of_digits, NEGATIVE_ONE};
use crate::scanner::{lemma_next_spec, Scanner};
use crate::text::{text_is, Token, TokenKind};
use crate::vm::BVM;

verus! {

/// A name and what it is bound to: a local slot, or in the global scope a
/// constant of the pool.
pub struct Binding {
    pub name: String,
    pub index: usize,
}

/// The bindings of a scope as mathematical values.
pub open spec fn scope_view(scope: Seq<Binding>) -> Seq<(Seq<char>, usize)> {
    Seq::new(scope.len(), |j: int| (scope[j].name@, scope[j].index))
}

/// The scopes as mathematical values.
pub open spec fn scopes_view(scopes: Seq<Vec<Binding>>) -> Seq<Seq<(Seq<char>, usize)>> {
    Seq::new(scopes.len(), |k: int| scope_view(scopes[k]@))
}

/// The compiler.
pub struct Compiler {
    scanner: Scanner,
    vm: BVM,
    token_buffer: Option<Token>,
    scopes: Vec<Vec<Binding>>,
    offset: usize,
}

impl View for Compiler {
    type V = State;

    closed spec fn view(&self) -> State {
        State {
            text: self.scanner.text@,
            ptr: self.scanner.ptr,
            buffer: self.token_buffer,
            vm: self.vm@,
            scopes: scopes_view(self.scopes@),
            offset: self.offset,
        }
    }
}

/// The locals up to a scope are among the locals of all scopes.
pub proof fn lemma_locals_take(scopes: Seq<Seq<(Seq<char>, usize)>>, k: int)
    requires
        0 <= k <= scopes.len(),
    ensures
        locals(scopes.take(k)) <= locals(scopes),
    decreases scopes.len(),
{
    if k < scopes.len() {
        lemma_locals_take(scopes.drop_last(), k);
        assert(scopes.drop_last().take(k) =~= scopes.take(k));
    } else {
        assert(scopes.take(k) =~= scopes);
    }
}

/// A name found in well-formed scopes is bound, where global, to a constant
/// of the pool, and where local, to a slot below `offset`.
pub proof fn lemma_lookup(s: State, name: Seq<char>, depth: int)
    requires
        s.wf(),
        1 <= depth <= s.scopes.len(),
    ensures
        match lookup(s.scopes.take(depth), name) {
            Some((idx, is_global)) => if is_global {
                idx < s.vm.constants.len()
            } else {
                idx < s.offset
            },
            None => true,
        },
    decreases depth,
{
    let scopes = s.scopes.take(depth);
    let last = scopes.last();
    lemma_find(last, name);
    if find(last, name) is None {
        if depth > 1 {
            lemma_lookup(s, name, depth - 1);
            assert(scopes.drop_last() =~= s.scopes.take(depth - 1));
        }
    } else {
        lemma_locals_take(s.scopes, depth);
    }
}

/// The code that reads or writes an identifier names a slot below `offset`,
/// or a constant of the pool.
pub proof fn lemma_references_in_range(s: State, token: Token)
    requires
        s.wf(),
    ensures
        match s.compile_load_id(token) {
            Ok(Instruction::Load(slot)) => slot < s.offset,
            Ok(Instruction::Konst(k)) => k < s.vm.constants.len(),
            Ok(_) => false,
            Err(_) => true,
        },
        match s.compile_store_id(token) {
            Ok(Instruction::Store(slot)) => slot < s.offset,
            Ok(_) => false,
            Err(_) => true,
        },
{
    assert(s.scopes.take(s.scopes.len() as int) =~= s.scopes);
    lemma_lookup(s, token.text_of(s.text), s.scopes.len() as int);
}

/// A scope of `k` bindings, when it closes, frees their `k` slots and ends
/// in a `pop(k)`; a scope without bindings ends in nothing.
pub proof fn lemma_close_scope(s: State)
    requires
        s.wf(),
        s.scopes.len() >= 2,
    ensures
        s.close_scope().offset == s.offset - s.scopes.last().len(),
        s.close_scope().scopes == s.scopes.drop_last(),
        s.close_scope().vm.bin == if s.scopes.last().len() > 0 {
            s.vm.bin + encode_spec(Instruction::Pop(s.scopes.last().len() as usize))
        } else {
            s.vm.bin
        },
{
}

/// A block whose statements declare `k` names of its own ends in a
/// `pop(k)`, or in nothing where `k` is zero: behind the code of its
/// statements stands the `pop` of as many slots as the block's scope holds
/// bindings when the closing token is reached, and `offset` is less by as
/// many.
pub proof fn lemma_block(s: State, end: TokenKind)
    requires
        s.block(end).1 is Ok,
    ensures
        ({
            let body = s.new_scope().block_body(end).0;
            let k = body.scopes.last().len();
            &&& s.new_scope().block_body(end).1 is Ok
            &&& s.block(end).0.scopes == body.scopes.drop_last()
            &&& s.block(end).0.offset as int == (body.offset - k) as usize
            &&& s.block(end).0.vm.bin == if k > 0 {
                body.vm.bin + encode_spec(Instruction::Pop(k as usize))
            } else {
                body.vm.bin
            }
        }),
{
}

/// More constants leave the state well-formed.
pub proof fn lemma_pool_grows(before: State, after: State)
    requires
        before.wf(),
        after.text == before.text,
        after.ptr == before.ptr,
        after.buffer == before.buffer,
        after.scopes == before.scopes,
        after.offset == before.offset,
        after.vm.bin == before.vm.bin,
        before.vm.constants.len() <= after.vm.constants.len(),
    ensures
        after.wf(),
{
    lemma_konsts_pool(before.vm.bin, 0, before.vm.constants.len(), after.vm.constants.len());
}

/// A branch stays where it is while code is appended and the pool grows.
pub proof fn lemma_branch_kept(before: State, after: State, at: usize)
    requires
        before.branch(at),
        after.appends(before, before.vm.bin.len()),
        before.vm.constants.len() <= after.vm.constants.len(),
    ensures
        after.branch(at),
{
    assert forall|j: int| 0 <= j < before.vm.bin.len() implies after.vm.bin[j]
        == before.vm.bin[j] by {
        assert(byte_at(after.vm.bin, j) == byte_at(before.vm.bin, j));
    }
    assert(after.vm.bin.take(at as int) =~= before.vm.bin.take(at as int));
    lemma_konsts_pool(
        before.vm.bin.take(at as int),
        0,
        before.vm.constants.len(),
        after.vm.constants.len(),
    );
}

/// Behind well-formed code, an emitted `jmp` or `cjmp` is a branch at the
/// place where the code ended.
pub proof fn lemma_branch_emitted(s: State, instruction: Instruction)
    requires
        s.wf(),
        s.vm.bin.len() <= usize::MAX,
        instruction is Jmp || instruction is Cjmp,
    ensures
        s.emit(instruction).branch(s.vm.bin.len() as usize),
{
    let at = s.vm.bin.len() as int;
    let code = s.emit(instruction).vm.bin;
    assert(code.take(at) =~= s.vm.bin);
    crate::assemble::lemma_decode_encode(instruction);
    let tag: u8 = 1;
    assert(tag << 6 == 0x40) by (bit_vector)
        requires
            tag == 1,
    ;
    assert(code[at] == encode_spec(instruction)[0]);
}

/// A name that `find` does not find is bound nowhere in the scope.
pub proof fn lemma_find_none(scope: Seq<(Seq<char>, usize)>, name: Seq<char>)
    requires
        find(scope, name) is None,
    ensures
        forall|j: int| 0 <= j < scope.len() ==> (#[trigger] scope[j]).0 != name,
    decreases scope.len(),
{
    if scope.len() > 0 {
        lemma_find_none(scope.drop_last(), name);
        assert forall|j: int| 0 <= j < scope.len() implies (#[trigger] scope[j]).0 != name by {
            if j < scope.len() - 1 {
                assert(scope.drop_last()[j] == scope[j]);
            }
        }
    }
}

/// A new scope leaves the state well-formed.
pub proof fn lemma_new_scope_wf(s: State)
    requires
        s.wf(),
    ensures
        s.new_scope().wf(),
{
    let t = s.new_scope();
    assert(t.scopes.drop_last() =~= s.scopes);
    assert forall|k: int, j: int| 1 <= k < t.scopes.len() && 0 <= j < t.scopes[k].len() implies (
    #[trigger] t.scopes[k][j]).1 < locals(t.scopes.take(k + 1)) by {
        assert(t.scopes.take(k + 1) =~= s.scopes.take(k + 1));
    }
}

/// The end of a scope leaves the state well-formed.
pub proof fn lemma_close_scope_wf(s: State)
    requires
        s.wf(),
        s.scopes.len() >= 2,
    ensures
        s.close_scope().wf(),
        s.offset >= s.scopes.last().len(),
{
    let t = s.close_scope();
    assert(t.scopes == s.scopes.drop_last());
    lemma_konsts_append(
        s.vm.bin,
        0,
        s.vm.constants.len(),
        Instruction::Pop(s.scopes.last().len() as usize),
    );
    assert forall|k: int, j: int| 1 <= k < t.scopes.len() && 0 <= j < t.scopes[k].len() implies (
    #[trigger] t.scopes[k][j]).1 < locals(t.scopes.take(k + 1)) by {
        assert(t.scopes.take(k + 1) =~= s.scopes.take(k + 1));
        assert(t.scopes[k][j] == s.scopes[k][j]);
    }
    assert forall|k: int, i: int, j: int|
        0 <= k < t.scopes.len() && 0 <= i < j < t.scopes[k].len() implies (
    #[trigger] t.scopes[k][i]).0 != (#[trigger] t.scopes[k][j]).0 by {
        assert(t.scopes[k][i] == s.scopes[k][i]);
        assert(t.scopes[k][j] == s.scopes[k][j]);
    }
    assert forall|j: int| 0 <= j < t.scopes[0].len() implies (#[trigger] t.scopes[0][j]).1
        < t.vm.constants.len() by {
        assert(t.scopes[0][j] == s.scopes[0][j]);
    }
}

/// A declaration of a name that its scope does not yet bind leaves the
/// state well-formed.
pub proof fn lemma_register_decl_wf(s: State, token: Token)
    requires
        s.wf(),
        s.scopes.len() >= 2,
        s.offset < usize::MAX,
    ensures
        s.register_decl(token).0.wf(),
{
    let name = token.text_of(s.text);
    if find(s.scopes.last(), name) is None {
        let t = s.register_decl(token).0;
        let last = s.scopes.len() - 1;
        lemma_find_none(s.scopes.last(), name);
        assert(t.scopes.drop_last() =~= s.scopes.drop_last());
        assert forall|k: int, j: int|
            1 <= k < t.scopes.len() && 0 <= j < t.scopes[k].len() implies (
        #[trigger] t.scopes[k][j]).1 < locals(t.scopes.take(k + 1)) by {
            if k < last {
                assert(t.scopes.take(k + 1) =~= s.scopes.take(k + 1));
                assert(t.scopes[k][j] == s.scopes[k][j]);
            } else {
                assert(t.scopes.take(k + 1) =~= t.scopes);
                assert(s.scopes.take(k + 1) =~= s.scopes);
                if j < s.scopes[k].len() {
                    assert(t.scopes[k][j] == s.scopes[k][j]);
                }
            }
        }
        assert forall|k: int, i: int, j: int|
            0 <= k < t.scopes.len() && 0 <= i < j < t.scopes[k].len() implies (
        #[trigger] t.scopes[k][i]).0 != (#[trigger] t.scopes[k][j]).0 by {
            if k < last {
                assert(t.scopes[k][i] == s.scopes[k][i]);
                assert(t.scopes[k][j] == s.scopes[k][j]);
            } else {
                assert(t.scopes[k][i] == s.scopes[k][i]);
                if j < s.scopes[k].len() {
                    assert(t.scopes[k][j] == s.scopes[k][j]);
                }
            }
        }
        assert forall|j: int| 0 <= j < t.scopes[0].len() implies (#[trigger] t.scopes[0][j]).1
            < t.vm.constants.len() by {
            assert(t.scopes[0][j] == s.scopes[0][j]);
        }
    }
}

/// A global binding of a name that the global scope does not yet bind, to a
/// constant of the pool, leaves the state well-formed.
pub proof fn lemma_register_const_wf(s: State, name: Seq<char>, idx: usize)
    requires
        s.wf(),
        idx < s.vm.constants.len(),
    ensures
        s.register_const(name, idx).0.wf(),
{
    if find(s.scopes[0], name) is None {
        let t = s.register_const(name, idx).0;
        lemma_find_none(s.scopes[0], name);
        lemma_locals_global(s.scopes, t.scopes[0], s.scopes.len() as int);
        assert(s.scopes.take(s.scopes.len() as int) =~= s.scopes);
        assert(t.scopes.take(s.scopes.len() as int) =~= t.scopes);
        assert forall|k: int, j: int|
            1 <= k < t.scopes.len() && 0 <= j < t.scopes[k].len() implies (
        #[trigger] t.scopes[k][j]).1 < locals(t.scopes.take(k + 1)) by {
            lemma_locals_global(s.scopes, t.scopes[0], k + 1);
            assert(t.scopes[k][j] == s.scopes[k][j]);
        }
        assert forall|k: int, i: int, j: int|
            0 <= k < t.scopes.len() && 0 <= i < j < t.scopes[k].len() implies (
        #[trigger] t.scopes[k][i]).0 != (#[trigger] t.scopes[k][j]).0 by {
            if k > 0 {
                assert(t.scopes[k][i] == s.scopes[k][i]);
                assert(t.scopes[k][j] == s.scopes[k][j]);
            } else {
                assert(t.scopes[k][i] == s.scopes[k][i]);
                if j < s.scopes[k].len() {
                    assert(t.scopes[k][j] == s.scopes[k][j]);
                }
            }
        }
        assert forall|j: int| 0 <= j < t.scopes[0].len() implies (#[trigger] t.scopes[0][j]).1
            < t.vm.constants.len() by {
            if j < s.scopes[0].len() {
                assert(t.scopes[0][j] == s.scopes[0][j]);
            }
        }
    }
}

/// What `find` gives is the index of a binding of the scope.
pub proof fn lemma_find(scope: Seq<(Seq<char>, usize)>, name: Seq<char>)
    ensures
        match find(scope, name) {
            Some(idx) => exists|j: int| 0 <= j < scope.len() && (#[trigger] scope[j]).1 == idx,
            None => true,
        },
    decreases scope.len(),
{
    if scope.len() > 0 && scope.last().0 != name {
        lemma_find(scope.drop_last(), name);
        match find(scope.drop_last(), name) {
            Some(idx) => {
                let j = choose|j: int|
                    0 <= j < scope.drop_last().len() && (#[trigger] scope.drop_last()[j]).1 == idx;
                assert(scope[j].1 == idx);
            },
            None => {},
        }
    }
}

/// Another global scope leaves the count of the locals as it is.
pub proof fn lemma_locals_global(
    scopes: Seq<Seq<(Seq<char>, usize)>>,
    global: Seq<(Seq<char>, usize)>,
    depth: int,
)
    requires
        1 <= depth <= scopes.len(),
    ensures
        locals(scopes.update(0, global).take(depth)) == locals(scopes.take(depth)),
    decreases depth,
{
    if depth > 1 {
        lemma_locals_global(scopes, global, depth - 1);
        assert(scopes.update(0, global).take(depth).drop_last() =~= scopes.update(0, global).take(
            depth - 1,
        ));
        assert(scopes.take(depth).drop_last() =~= scopes.take(depth - 1));
    }
}

/// The index bound to `name` in `scope`, if any.
fn find_in(scope: &Vec<Binding>, name: &String) -> (r: Option<usize>)
    ensures
        r == find(scope_view(scope@), name@),
{
    let mut i: usize = scope.len();
    assert(scope_view(scope@).take(i as int) =~= scope_view(scope@));
    while i > 0
        invariant
            i <= scope.len(),
            find(scope_view(scope@), name@) == find(scope_view(scope@).take(i as int), name@),
        decreases i,
    {
        i = i - 1;
        assert(scope_view(scope@).take(i + 1).drop_last() =~= scope_view(scope@).take(i as int));
        if scope[i].name == *name {
            return Some(scope[i].index);
        }
    }
    None
}

impl Compiler {
    /// Whether the compiler is in a state that its own functions leave it in.
    pub closed spec fn wf(&self) -> bool {
        &&& self@.wf()
        &&& self.scanner.old_ptr == self.scanner.ptr
    }

    /// A compiler over what `scanner`, which stands between two tokens, has
    /// not yet read of its text. It writes into `vm`, whose code so far must
    /// be made of whole instructions with each `konst` in the pool, as it
    /// is in a new machine. The compiler has one scope, the global one, with
    /// no binding in it.
    pub fn new(scanner: Scanner, vm: BVM) -> (r: Compiler)
        requires
            scanner.wf(),
            scanner.old_ptr == scanner.ptr,
            konsts_below(vm@.bin, 0, vm@.constants.len()),
        ensures
            r@ == (State {
                text: scanner.text@,
                ptr: scanner.ptr,
                buffer: None,
                vm: vm@,
                scopes: seq![Seq::empty()],
                offset: 0,
            }),
            r.wf(),
            r@.fits(),
    {
        let mut scopes: Vec<Vec<Binding>> = Vec::new();
        scopes.push(Vec::new());
        let r = Compiler { scanner, vm, token_buffer: None, scopes, offset: 0 };
        proof {
            broadcast use vstd::std_specs::vec::axiom_spec_len;

            assert(r.scanner.text@.len() == r.scanner.text.len());
            assert(r@.scopes[0] =~= Seq::empty());
            assert(r@.scopes =~= seq![Seq::empty()]);
        }
        r
    }

    /// The machine that the compiler wrote into.
    pub fn vm(self) -> (r: BVM)
        ensures
            r@ == self@.vm,
    {
        self.vm
    }

    fn error_unexpected(&self, token: Token) -> (e: Error)
        ensures
            e@ == ErrorView::UnexpectedToken(token),
    {
        Error::UnexpectedToken(token)
    }

    fn error_immutable(&self, token: Token) -> (e: Error)
        ensures
            e@ == ErrorView::Immutable(token),
    {
        Error::Immutable(token)
    }

    /// The next token from the scanner.
    fn token(&mut self) -> (r: Result<Token, Error>)
        requires
            old(self).wf(),
            old(self)@.buffer is None,
        ensures
            (final(self)@, result_view(r)) == old(self)@.token(),
            final(self)@.follows(old(self)@),
            final(self).wf(),
            final(self)@.remaining() <= old(self)@.remaining(),
            match r {
                Ok(t) => t.from + t.len == final(self)@.ptr && old(self)@.ptr <= t.from && (t.kind
                    != TokenKind::EOF ==> t.len > 0),
                Err(_) => true,
            },
    {
        proof {
            lemma_next_spec(self.scanner.text@, self.scanner.ptr as int);
        }
        let t = self.scanner.next();
        if t.is_error() {
            Err(Error::Scanner)
        } else {
            Ok(t)
        }
    }

    /// Takes the next token.
    pub fn pop(&mut self) -> (r: Result<Token, Error>)
        requires
            old(self).wf(),
        ensures
            (final(self)@, result_view(r)) == old(self)@.pop(),
            final(self)@.follows(old(self)@),
            final(self).wf(),
            final(self)@.remaining() <= old(self)@.remaining(),
            match r {
                Ok(t) => t.from + t.len <= final(self)@.frontier() && old(self)@.frontier()
                    <= t.from && (t.kind != TokenKind::EOF ==> t.len > 0),
                Err(_) => true,
            },
    {
        if let Some(t) = self.token_buffer {
            self.token_buffer = None;
            Ok(t)
        } else {
            self.token()
        }
    }

    /// Looks at the next token without taking it.
    pub fn peek(&mut self) -> (r: Result<Token, Error>)
        requires
            old(self).wf(),
        ensures
            (final(self)@, result_view(r)) == old(self)@.peek(),
            final(self)@.follows(old(self)@),
            final(self).wf(),
            final(self)@.remaining() <= old(self)@.remaining(),
            final(self)@.scopes == old(self)@.scopes,
            final(self)@.offset == old(self)@.offset,
            final(self)@.vm == old(self)@.vm,
    {
        if let Some(t) = self.token_buffer {
            Ok(t)
        } else {
            match self.token() {
                Ok(t) => {
                    self.token_buffer = Some(t);
                    Ok(t)
                },
                Err(e) => Err(e),
            }
        }
    }

    /// Appends the encoded instruction to the code. A `konst` must name a
    /// constant of the pool.
    pub fn emit(&mut self, instruction: Instruction)
        requires
            old(self).wf(),
            old(self)@.admits(instruction),
        ensures
            final(self)@ == old(self)@.emit(instruction),
            final(self)@.follows(old(self)@),
            final(self).wf(),
    {
        let bytecode = encode(instruction);
        let mut i: u8 = 0;
        while i < bytecode.len
            invariant
                i <= bytecode.len <= 9,
                self.scanner == old(self).scanner,
                self@ == (State {
                    vm: crate::machine::Machine {
                        bin: old(self)@.vm.bin + bytecode@.take(i as int),
                        ..old(self)@.vm
                    },
                    ..old(self)@
                }),
            decreases bytecode.len - i,
        {
            self.vm.emit(bytecode.bytes[i as usize]);
            assert(old(self)@.vm.bin + bytecode@.take(i + 1) =~= (old(self)@.vm.bin
                + bytecode@.take(i as int)).push(bytecode.bytes[i as int]));
            i = i + 1;
        }
        proof {
            assert(bytecode@.take(bytecode.len as int) =~= bytecode@);
            lemma_konsts_append(
                old(self)@.vm.bin,
                0,
                old(self)@.vm.constants.len(),
                instruction,
            );
        }
    }

    /// Takes the next token, which must be of kind `kind`.
    pub fn expect(&mut self, kind: TokenKind) -> (r: Result<Token, Error>)
        requires
            old(self).wf(),
        ensures
            (final(self)@, result_view(r)) == old(self)@.expect(kind),
            final(self)@.follows(old(self)@),
            final(self).wf(),
            final(self)@.remaining() <= old(self)@.remaining(),
            final(self)@.scopes == old(self)@.scopes,
            final(self)@.offset == old(self)@.offset,
            final(self)@.vm == old(self)@.vm,
            match r {
                Ok(t) => t.kind == kind && t.from + t.len <= final(self)@.frontier() && old(
                    self,
                )@.frontier() <= t.from && (t.kind != TokenKind::EOF ==> t.len > 0),
                Err(_) => true,
            },
    {
        match self.pop() {
            Ok(token) => {
                if token.kind != kind {
                    Err(self.error_unexpected(token))
                } else {
                    Ok(token)
                }
            },
            Err(e) => Err(e),
        }
    }

    /// The instruction of an infix operator, if `token` is one.
    fn operator(&self, token: Token) -> (r: Option<Instruction>)
        requires
            self.wf(),
            token.within(self@.text.len()),
        ensures
            r == self@.compile_operator(token),
    {
        match token.kind {
            TokenKind::Single(c) => {
                if c == '+' {
                    Some(Instruction::Add)
                } else if c == '-' {
                    Some(Instruction::Sub)
                } else if c == '*' {
                    Some(Instruction::Mult)
                } else if c == '/' {
                    Some(Instruction::Div)
                } else if c == '%' {
                    Some(Instruction::Mod)
                } else if c == '<' {
                    Some(Instruction::Lt)
                } else if c == '>' {
                    Some(Instruction::Gt)
                } else {
                    None
                }
            },
            TokenKind::Double => {
                if text_is(&self.scanner.text, token.from, token.len, "==") {
                    Some(Instruction::Eq)
                } else if text_is(&self.scanner.text, token.from, token.len, "!=") {
                    Some(Instruction::Ne)
                } else if text_is(&self.scanner.text, token.from, token.len, ">=") {
                    Some(Instruction::Ge)
                } else if text_is(&self.scanner.text, token.from, token.len, "<=") {
                    Some(Instruction::Le)
                } else {
                    None
                }
            },
            _ => None,
        }
    }

    /// The left and right binding powers of an infix operator.
    pub fn pwr_infix(&self, token: Token) -> (r: Option<(u32, u32)>)
        requires
            self.wf(),
            token.within(self@.text.len()),
        ensures
            r == self@.pwr_infix(token),
    {
        match self.operator(token) {
            Some(Instruction::Add) | Some(Instruction::Sub) => Some((51, 52)),
            Some(Instruction::Mult) | Some(Instruction::Div) | Some(Instruction::Mod) => Some(
                (53, 54),
            ),
            Some(_) => Some((49, 50)),
            None => None,
        }
    }

    /// The binding power of what opens a call or an index.
    pub fn pwr_postfix(&self, token: Token) -> (r: Option<u32>)
        ensures
            r == pwr_postfix(token),
    {
        if token.is('(') || token.is('[') {
            Some(59)
        } else {
            None
        }
    }

    /// The binding power of a prefix operator.
    pub fn pwr_prefix(&self, token: Token) -> (r: Option<u32>)
        ensures
            r == pwr_prefix(token),
    {
        if token.is('+') || token.is('-') {
            Some(56)
        } else {
            None
        }
    }

    /// The instruction of the infix operator `token`.
    pub fn compile_operator(&self, token: Token) -> (r: Instruction)
        requires
            self.wf(),
            token.within(self@.text.len()),
            self@.compile_operator(token) is Some,
        ensures
            Some(r) == self@.compile_operator(token),
            !(r is Konst),
    {
        match self.operator(token) {
            Some(i) => i,
            None => Instruction::Nop,
        }
    }

    fn get_token_text(&self, token: Token) -> (r: String)
        requires
            token.within(self@.text.len()),
        ensures
            r@ == token.text_of(self@.text),
    {
        token.text(&self.scanner.text)
    }

    /// What an identifier is bound to: an index, and whether it is global.
    /// A global index names a constant of the pool, a local one a slot below
    /// `offset`.
    pub fn get_id(&self, token: Token) -> (r: Result<(usize, bool), Error>)
        requires
            self.wf(),
            token.within(self@.text.len()),
        ensures
            result_view(r) == self@.get_id(token),
            match r {
                Ok((idx, is_global)) => if is_global {
                    idx < self@.vm.constants.len()
                } else {
                    idx < self@.offset
                },
                Err(_) => true,
            },
    {
        let name = self.get_token_text(token);
        let mut i: usize = self.scopes.len();
        proof {
            assert(self@.scopes.take(i as int) =~= self@.scopes);
            lemma_lookup(self@, name@, i as int);
        }
        while i > 0
            invariant
                i <= self.scopes.len(),
                self.wf(),
                name@ == token.text_of(self@.text),
                lookup(self@.scopes, name@) == lookup(self@.scopes.take(i as int), name@),
            decreases i,
        {
            i = i - 1;
            proof {
                assert(self@.scopes.take(self.scopes.len() as int) =~= self@.scopes);
                lemma_lookup(self@, name@, self.scopes.len() as int);
            }
            assert(self@.scopes.take(i + 1).drop_last() =~= self@.scopes.take(i as int));
            if let Some(idx) = find_in(&self.scopes[i], &name) {
                return Ok((idx, i == 0));
            }
        }
        Err(Error::UnknownIdentifier(token))
    }

    /// The instruction that reads an identifier. A `load` reads a slot below
    /// `offset`, a `konst` a constant of the pool.
    pub fn compile_load_id(&self, token: Token) -> (r: Result<Instruction, Error>)
        requires
            self.wf(),
            token.within(self@.text.len()),
        ensures
            result_view(r) == self@.compile_load_id(token),
            r matches Ok(i) ==> self@.admits(i),
            match r {
                Ok(Instruction::Load(slot)) => slot < self@.offset,
                Ok(Instruction::Konst(k)) => k < self@.vm.constants.len(),
                Ok(_) => false,
                Err(_) => true,
            },
    {
        match self.get_id(token) {
            Ok((idx, is_global)) => {
                if is_global {
                    Ok(Instruction::Konst(idx))
                } else {
                    Ok(Instruction::Load(idx))
                }
            },
            Err(e) => Err(e),
        }
    }

    /// The instruction that writes an identifier, which must be local. The
    /// `store` writes a slot below `offset`.
    pub fn compile_store_id(&self, token: Token) -> (r: Result<Instruction, Error>)
        requires
            self.wf(),
            token.within(self@.text.len()),
        ensures
            result_view(r) == self@.compile_store_id(token),
            r matches Ok(i) ==> self@.admits(i),
            match r {
                Ok(Instruction::Store(slot)) => slot < self@.offset,
                Ok(_) => false,
                Err(_) => true,
            },
    {
        match self.get_id(token) {
            Ok((idx, is_global)) => {
                if is_global {
                    Err(self.error_immutable(token))
                } else {
                    Ok(Instruction::Store(idx))
                }
            },
            Err(e) => Err(e),
        }
    }

    /// The instruction of a number, a literal, a keyword constant or an
    /// identifier. A `konst` names a constant of the pool as it is afterwards.
    pub fn compile_atom(&mut self, token: Token) -> (r: Result<Instruction, Error>)
        requires
            old(self).wf(),
            token.within(old(self)@.text.len()),
        ensures
            (final(self)@, result_view(r)) == old(self)@.compile_atom(token),
            r matches Ok(i) ==> final(self)@.admits(i),
            final(self)@.follows(old(self)@),
            final(self).wf(),
            final(self)@.remaining() == old(self)@.remaining(),
            final(self)@.scopes == old(self)@.scopes,
            final(self)@.offset == old(self)@.offset,
            match r {
                Ok(Instruction::Load(slot)) => slot < final(self)@.offset,
                Ok(Instruction::Konst(k)) => k < final(self)@.vm.constants.len(),
                _ => true,
            },
    {
        match token.kind {
            TokenKind::Number => {
                let number = of_digits(&self.scanner.text, token.from, token.len);
                let k = self.vm.rodata_number(number);
                proof {
                    lemma_pool_grows(old(self)@, self@);
                }
                Ok(Instruction::Konst(k))
            },
            TokenKind::Literal => {
                let mut name: Vec<char> = Vec::new();
                if token.len >= 2 {
                    let mut k: usize = 1;
                    while k < token.len - 1
                        invariant
                            1 <= k <= token.len - 1,
                            token.from + token.len <= self.scanner.text@.len() <= usize::MAX,
                            name@ == self.scanner.text@.subrange(token.from + 1, token.from + k),
                        decreases token.len - k,
                    {
                        name.push(self.scanner.text[token.from + k]);
                        k = k + 1;
                    }
                }
                let k = self.vm.rodata_literal(name);
                proof {
                    lemma_pool_grows(old(self)@, self@);
                }
                Ok(Instruction::Konst(k))
            },
            TokenKind::True => Ok(Instruction::True),
            TokenKind::False => Ok(Instruction::False),
            TokenKind::Nil => Ok(Instruction::Nil),
            TokenKind::Identifier => self.compile_load_id(token),
            _ => Err(self.error_unexpected(token)),
        }
    }

    /// Opens a scope.
    pub fn new_scope(&mut self)
        requires
            old(self).wf(),
        ensures
            final(self)@ == old(self)@.new_scope(),
            final(self)@.follows(old(self)@),
            final(self).wf(),
    {
        self.scopes.push(Vec::new());
        proof {
            assert(scope_view(Seq::<Binding>::empty()) =~= Seq::empty());
            assert(self@.scopes =~= old(self)@.scopes.push(Seq::empty()));
            lemma_new_scope_wf(old(self)@);
        }
    }

    /// Closes the innermost scope, which is not the global one.
    pub fn close_scope(&mut self)
        requires
            old(self).wf(),
            old(self)@.scopes.len() >= 2,
        ensures
            final(self)@ == old(self)@.close_scope(),
            final(self)@.follows(old(self)@),
            final(self).wf(),
    {
        let scope_size = self.scopes[self.scopes.len() - 1].len();
        proof {
            lemma_close_scope_wf(old(self)@);
        }
        self.offset -= scope_size;
        self.scopes.pop();
        proof {
            assert(self@.scopes =~= old(self)@.scopes.drop_last());
        }
        if scope_size > 0 {
            self.emit(Instruction::Pop(scope_size));
        }
    }

    /// Binds the identifier to the next free slot, in the innermost scope,
    /// which is not the global one.
    pub fn register_decl(&mut self, token: Token) -> (r: Result<(), Error>)
        requires
            old(self).wf(),
            token.within(old(self)@.text.len()),
            old(self)@.scopes.len() >= 2,
            old(self)@.offset < usize::MAX,
        ensures
            (final(self)@, result_view(r)) == old(self)@.register_decl(token),
            final(self)@.keeps(old(self)@),
            final(self)@.same_outer(old(self)@),
            final(self)@.vm == old(self)@.vm,
            final(self)@.remaining() == old(self)@.remaining(),
            final(self)@.offset == if r is Ok {
                old(self)@.offset + 1
            } else {
                old(self)@.offset as int
            },
            final(self).wf(),
    {
        let name = self.get_token_text(token);
        let last = self.scopes.len() - 1;
        if find_in(&self.scopes[last], &name).is_some() {
            return Err(Error::MultipleDefinition(name));
        }
        let idx = self.offset;
        self.offset += 1;
        self.scopes[last].push(Binding { name, index: idx });
        proof {
            let before = old(self)@.scopes;
            let after = self@.scopes;
            assert(after[last as int] =~= before.last().push((token.text_of(self@.text), idx)));
            assert(after =~= before.update(last as int, after[last as int]));
            assert(after.drop_last() =~= before.drop_last());
            lemma_register_decl_wf(old(self)@, token);
        }
        Ok(())
    }

    /// Binds `name` to the constant `idx` of the pool, in the global scope.
    pub fn register_const(&mut self, name: String, idx: usize) -> (r: Result<(), Error>)
        requires
            old(self).wf(),
            idx < old(self)@.vm.constants.len(),
        ensures
            (final(self)@, result_view(r)) == old(self)@.register_const(name@, idx),
            final(self)@.follows(old(self)@),
            final(self).wf(),
            final(self)@.scopes.len() == old(self)@.scopes.len(),
    {
        if find_in(&self.scopes[0], &name).is_some() {
            return Err(Error::MultipleDefinition(name));
        }
        let ghost text = name@;
        self.scopes[0].push(Binding { name, index: idx });
        proof {
            let before = old(self)@.scopes;
            let after = self@.scopes;
            assert(after[0] =~= before[0].push((text, idx)));
            assert(after =~= before.update(0, after[0]));
            lemma_register_const_wf(old(self)@, text, idx);
        }
        Ok(())
    }

    /// Whether an expression ends before `token` without a look at operators.
    fn closes(&self, token: Token) -> (r: bool)
        ensures
            r == closes(token),
    {
        match token.kind {
            TokenKind::Single(c) => c == '}' || c == '{' || c == ',' || c == ')' || c == ']',
            TokenKind::Double => false,
            _ => true,
        }
    }

    /// The arguments of a call, behind the opening parenthesis, and the call.
    fn called(&mut self) -> (r: Result<(), Error>)
        requires
            old(self).wf(),
        ensures
            (final(self)@, result_view(r)) == ({
                let (s, r) = old(self)@.explist(')');
                match r {
                    Err(e) => (s, Err(e)),
                    Ok(argc) => (s.emit(Instruction::Call(argc)), Ok(())),
                }
            }),
            final(self)@.follows(old(self)@),
            final(self).wf(),
            final(self)@.scopes == old(self)@.scopes,
            final(self)@.offset == old(self)@.offset,
            r is Ok ==> final(self)@.remaining() == old(self)@.explist(')').0.remaining(),
        decreases old(self)@.remaining(), 7nat,
    {
        let argc = match self.explist(')') {
            Ok(argc) => argc,
            Err(e) => {
                return Err(e);
            },
        };
        self.emit(Instruction::Call(argc));
        Ok(())
    }

    /// An index, behind the opening bracket, and the `get`.
    fn subscripted(&mut self) -> (r: Result<(), Error>)
        requires
            old(self).wf(),
        ensures
            (final(self)@, result_view(r)) == ({
                let (s, r) = old(self)@.expr();
                match r {
                    Err(e) => (s, Err(e)),
                    Ok(_) => {
                        let (closed, r) = s.expect(TokenKind::Single(']'));
                        match r {
                            Err(e) => (closed, Err(e)),
                            Ok(_) => (closed.emit(Instruction::Get), Ok(())),
                        }
                    },
                }
            }),
            final(self)@.follows(old(self)@),
            final(self).wf(),
            final(self)@.scopes == old(self)@.scopes,
            final(self)@.offset == old(self)@.offset,
        decreases old(self)@.remaining(), 7nat,
    {
        match self.expr() {
            Ok(_) => {},
            Err(e) => {
                return Err(e);
            },
        }
        match self.expect(TokenKind::Single(']')) {
            Ok(_) => {},
            Err(e) => {
                return Err(e);
            },
        }
        self.emit(Instruction::Get);
        Ok(())
    }

    /// The right operand of an infix operator, which binds with `rp`, and
    /// the operator's instruction.
    fn operated(&mut self, i: Instruction, rp: u32) -> (r: Result<(), Error>)
        requires
            old(self).wf(),
            !(i is Konst),
        ensures
            (final(self)@, result_view(r)) == ({
                let (s, r) = old(self)@.expr_p(rp);
                match r {
                    Err(e) => (s, Err(e)),
                    Ok(_) => (s.emit(i), Ok(())),
                }
            }),
            final(self)@.follows(old(self)@),
            final(self).wf(),
            final(self)@.scopes == old(self)@.scopes,
            final(self)@.offset == old(self)@.offset,
        decreases old(self)@.remaining(), 7nat,
    {
        match self.expr_p(rp) {
            Ok(_) => {},
            Err(e) => {
                return Err(e);
            },
        }
        self.emit(i);
        Ok(())
    }

    /// The end of an expression whose first part began with `token`.
    fn expr_tail(&mut self, token: Token, pwr: u32) -> (r: Result<(), Error>)
        requires
            old(self).wf(),
        ensures
            (final(self)@, result_view(r)) == old(self)@.expr_tail(token, pwr),
            final(self)@.follows(old(self)@),
            final(self).wf(),
            final(self)@.scopes == old(self)@.scopes,
            final(self)@.offset == old(self)@.offset,
        decreases old(self)@.remaining(), 0nat,
    {
        loop
            invariant
                self.wf(),
                self@.follows(old(self)@),
                self@.scopes == old(self)@.scopes,
                self@.offset == old(self)@.offset,
                old(self)@.expr_tail(token, pwr) == self@.expr_tail(token, pwr),
            decreases self@.remaining(),
        {
            let t = match self.peek() {
                Ok(t) => t,
                Err(e) => {
                    return Err(e);
                },
            };
            if self.closes(t) {
                return Ok(());
            }
            let done = if self.pwr_postfix(t).is_some() {
                if (token.kind != TokenKind::Identifier && !token.is('(') && !token.is('[')) || pwr
                    > 59 {
                    return Ok(());
                }
                let _ = self.pop();
                if t.kind == TokenKind::Single('(') {
                    self.called()
                } else {
                    self.subscripted()
                }
            } else {
                match self.pwr_infix(t) {
                    None => {
                        return Err(self.error_unexpected(t));
                    },
                    Some((lp, rp)) => {
                        if pwr > lp {
                            return Ok(());
                        }
                        let _ = self.pop();
                        let i = self.compile_operator(t);
                        self.operated(i, rp)
                    },
                }
            };
            match done {
                Ok(_) => {},
                Err(e) => {
                    return Err(e);
                },
            }
        }
    }

    /// Emits the code that turns the sign of the number on top of the stack.
    fn negate(&mut self)
        requires
            old(self).wf(),
        ensures
            final(self)@ == old(self)@.negate(),
            final(self)@.follows(old(self)@),
            final(self).wf(),
    {
        let address = self.vm.rodata_number(NEGATIVE_ONE);
        proof {
            lemma_pool_grows(old(self)@, self@);
        }
        self.emit(Instruction::Konst(address));
        self.emit(Instruction::Mult);
    }

    /// The operand of the prefix operator `token`, and what the operator
    /// makes of it.
    fn prefixed(&mut self, token: Token) -> (r: Result<(), Error>)
        requires
            old(self).wf(),
        ensures
            (final(self)@, result_view(r)) == ({
                let (s, r) = old(self)@.expr_p(56);
                match r {
                    Err(e) => (s, Err(e)),
                    Ok(_) => if token.kind == TokenKind::Single('-') {
                        (s.negate(), Ok(()))
                    } else {
                        (s, Ok(()))
                    },
                }
            }),
            final(self)@.follows(old(self)@),
            final(self).wf(),
            final(self)@.scopes == old(self)@.scopes,
            final(self)@.offset == old(self)@.offset,
        decreases old(self)@.remaining(), 7nat,
    {
        match self.expr_p(56) {
            Ok(_) => {},
            Err(e) => {
                return Err(e);
            },
        }
        if token.kind == TokenKind::Single('-') {
            self.negate();
        }
        Ok(())
    }

    /// An expression in parentheses, behind the opening one.
    fn grouped(&mut self) -> (r: Result<(), Error>)
        requires
            old(self).wf(),
        ensures
            (final(self)@, result_view(r)) == ({
                let (s, r) = old(self)@.expr();
                match r {
                    Err(e) => (s, Err(e)),
                    Ok(_) => {
                        let (closed, r) = s.expect(TokenKind::Single(')'));
                        match r {
                            Err(e) => (closed, Err(e)),
                            Ok(_) => (closed, Ok(())),
                        }
                    },
                }
            }),
            final(self)@.follows(old(self)@),
            final(self).wf(),
            final(self)@.scopes == old(self)@.scopes,
            final(self)@.offset == old(self)@.offset,
        decreases old(self)@.remaining(), 7nat,
    {
        match self.expr() {
            Ok(_) => {},
            Err(e) => {
                return Err(e);
            },
        }
        match self.expect(TokenKind::Single(')')) {
            Ok(_) => Ok(()),
            Err(e) => Err(e),
        }
    }

    /// An array literal, behind the opening bracket.
    fn listed(&mut self) -> (r: Result<(), Error>)
        requires
            old(self).wf(),
        ensures
            (final(self)@, result_view(r)) == ({
                let (s, r) = old(self)@.explist(']');
                match r {
                    Err(e) => (s, Err(e)),
                    Ok(count) => (s.emit(Instruction::Anew(count)), Ok(())),
                }
            }),
            final(self)@.follows(old(self)@),
            final(self).wf(),
            final(self)@.scopes == old(self)@.scopes,
            final(self)@.offset == old(self)@.offset,
        decreases old(self)@.remaining(), 7nat,
    {
        let count = match self.explist(']') {
            Ok(count) => count,
            Err(e) => {
                return Err(e);
            },
        };
        self.emit(Instruction::Anew(count));
        Ok(())
    }

    /// An atom: the instruction of `token`, emitted.
    fn atom(&mut self, token: Token) -> (r: Result<(), Error>)
        requires
            old(self).wf(),
            token.within(old(self)@.text.len()),
        ensures
            (final(self)@, result_view(r)) == ({
                let (s, r) = old(self)@.compile_atom(token);
                match r {
                    Err(e) => (s, Err(e)),
                    Ok(i) => (s.emit(i), Ok(())),
                }
            }),
            final(self)@.follows(old(self)@),
            final(self).wf(),
            final(self)@.scopes == old(self)@.scopes,
            final(self)@.offset == old(self)@.offset,
            final(self)@.remaining() == old(self)@.remaining(),
            r is Ok ==> token.kind != TokenKind::EOF,
    {
        let i = match self.compile_atom(token) {
            Ok(i) => i,
            Err(e) => {
                return Err(e);
            },
        };
        self.emit(i);
        Ok(())
    }

    /// The first part of an expression. Gives the token that it began with.
    fn primary(&mut self) -> (r: Result<Token, Error>)
        requires
            old(self).wf(),
        ensures
            (final(self)@, result_view(r)) == old(self)@.primary(),
            final(self)@.follows(old(self)@),
            final(self).wf(),
            final(self)@.scopes == old(self)@.scopes,
            final(self)@.offset == old(self)@.offset,
            r is Ok ==> final(self)@.remaining() < old(self)@.remaining(),
        decreases old(self)@.remaining(), 1nat,
    {
        let token = match self.pop() {
            Ok(t) => t,
            Err(e) => {
                return Err(e);
            },
        };
        let done = if self.pwr_prefix(token).is_some() {
            self.prefixed(token)
        } else if token.is('(') {
            self.grouped()
        } else if token.is('[') {
            self.listed()
        } else {
            self.atom(token)
        };
        match done {
            Ok(_) => Ok(token),
            Err(e) => Err(e),
        }
    }

    /// An expression whose infix operators bind at least as tightly as `pwr`.
    pub fn expr_p(&mut self, pwr: u32) -> (r: Result<(), Error>)
        requires
            old(self).wf(),
        ensures
            (final(self)@, result_view(r)) == old(self)@.expr_p(pwr),
            final(self)@.follows(old(self)@),
            final(self).wf(),
            final(self)@.scopes == old(self)@.scopes,
            final(self)@.offset == old(self)@.offset,
            r is Ok ==> final(self)@.remaining() < old(self)@.remaining(),
        decreases old(self)@.remaining(), 2nat,
    {
        let token = match self.primary() {
            Ok(t) => t,
            Err(e) => {
                return Err(e);
            },
        };
        self.expr_tail(token, pwr)
    }

    /// An expression.
    pub fn expr(&mut self) -> (r: Result<(), Error>)
        requires
            old(self).wf(),
        ensures
            (final(self)@, result_view(r)) == old(self)@.expr(),
            final(self)@.follows(old(self)@),
            final(self).wf(),
            final(self)@.scopes == old(self)@.scopes,
            final(self)@.offset == old(self)@.offset,
            r is Ok ==> final(self)@.remaining() < old(self)@.remaining(),
        decreases old(self)@.remaining(), 3nat,
    {
        self.expr_p(0)
    }

    /// A list of expressions, separated by commas and closed by `end`, whose
    /// opening bracket is taken already. Gives the number of expressions.
    pub fn explist(&mut self, end: char) -> (r: Result<usize, Error>)
        requires
            old(self).wf(),
        ensures
            (final(self)@, result_view(r)) == old(self)@.explist(end),
            final(self)@.follows(old(self)@),
            final(self).wf(),
            final(self)@.scopes == old(self)@.scopes,
            final(self)@.offset == old(self)@.offset,
            r is Ok ==> final(self)@.remaining() < old(self)@.remaining(),
        decreases old(self)@.remaining(), 5nat,
    {
        let first = match self.peek() {
            Ok(t) => t,
            Err(e) => {
                return Err(e);
            },
        };
        if first.kind == TokenKind::Single(end) {
            let _ = self.pop();
            return Ok(0);
        }
        let mut count: usize = 0;
        loop
            invariant
                self.wf(),
                self@.follows(old(self)@),
                self@.scopes == old(self)@.scopes,
                self@.offset == old(self)@.offset,
                count <= self@.frontier(),
                old(self)@.explist(end) == self@.explist_tail(end, count),
            decreases self@.remaining(),
        {
            match self.expr() {
                Ok(_) => {},
                Err(e) => {
                    return Err(e);
                },
            }
            count = count + 1;
            let t = match self.peek() {
                Ok(t) => t,
                Err(e) => {
                    return Err(e);
                },
            };
            if t.kind == TokenKind::Single(end) {
                let _ = self.pop();
                return Ok(count);
            }
            match self.expect(TokenKind::Single(',')) {
                Ok(_) => {},
                Err(e) => {
                    return Err(e);
                },
            }
        }
    }

    /// One declared variable, with its value or `nil`.
    pub fn var_decl(&mut self) -> (r: Result<(), Error>)
        requires
            old(self).wf(),
            old(self)@.scopes.len() >= 2,
            old(self)@.fits(),
        ensures
            (final(self)@, result_view(r)) == old(self)@.var_decl(),
            final(self)@.follows(old(self)@),
            final(self).wf(),
            final(self)@.same_outer(old(self)@),
            r is Ok ==> final(self)@.remaining() < old(self)@.remaining(),
    {
        let id = match self.expect(TokenKind::Identifier) {
            Ok(id) => id,
            Err(e) => {
                return Err(e);
            },
        };
        match self.register_decl(id) {
            Ok(_) => {},
            Err(e) => {
                return Err(e);
            },
        }
        let t = match self.peek() {
            Ok(t) => t,
            Err(e) => {
                return Err(e);
            },
        };
        if t.is('=') {
            let _ = self.pop();
            self.expr()
        } else {
            self.emit(Instruction::Nil);
            Ok(())
        }
    }

    /// The declarations that follow the first of a `let`.
    fn var_decls(&mut self) -> (r: Result<(), Error>)
        requires
            old(self).wf(),
            old(self)@.scopes.len() >= 2,
            old(self)@.fits(),
        ensures
            (final(self)@, result_view(r)) == old(self)@.var_decls(),
            final(self)@.follows(old(self)@),
            final(self).wf(),
            final(self)@.same_outer(old(self)@),
    {
        loop
            invariant
                self.wf(),
                self@.follows(old(self)@),
                self@.same_outer(old(self)@),
                self@.scopes.len() >= 2,
                old(self)@.fits(),
                old(self)@.var_decls() == self@.var_decls(),
            decreases self@.remaining(),
        {
            let t = match self.peek() {
                Ok(t) => t,
                Err(e) => {
                    return Err(e);
                },
            };
            if !t.is(',') {
                return Ok(());
            }
            let _ = self.pop();
            match self.var_decl() {
                Ok(_) => {},
                Err(e) => {
                    return Err(e);
                },
            }
        }
    }

    /// Passes over the tokens up to the next `}`.
    fn skip_rest(&mut self) -> (r: Result<(), Error>)
        requires
            old(self).wf(),
        ensures
            (final(self)@, result_view(r)) == old(self)@.skip_rest(),
            final(self)@.follows(old(self)@),
            final(self).wf(),
            final(self)@.scopes == old(self)@.scopes,
    {
        loop
            invariant
                self.wf(),
                self@.follows(old(self)@),
                self@.scopes == old(self)@.scopes,
                old(self)@.skip_rest() == self@.skip_rest(),
            decreases self@.remaining(),
        {
            let t = match self.peek() {
                Ok(t) => t,
                Err(e) => {
                    return Err(e);
                },
            };
            if t.is('}') || t.kind == TokenKind::EOF {
                return Ok(());
            }
            let _ = self.pop();
        }
    }

    /// Reads the name or the indexed element that a call or an index is
    /// added to.
    pub fn flush_lvalue(&mut self, state: AssignCallState) -> (r: Result<(), Error>)
        requires
            old(self).wf(),
            match state {
                AssignCallState::Identifier(token) => token.within(old(self)@.text.len()),
                _ => true,
            },
        ensures
            (final(self)@, result_view(r)) == old(self)@.flush_lvalue(state),
            final(self)@.follows(old(self)@),
            final(self).wf(),
            final(self)@.scopes == old(self)@.scopes,
            final(self)@.remaining() == old(self)@.remaining(),
    {
        match state {
            AssignCallState::Identifier(token) => {
                let i = match self.compile_load_id(token) {
                    Ok(i) => i,
                    Err(e) => {
                        return Err(e);
                    },
                };
                self.emit(i);
            },
            AssignCallState::Index => {
                self.emit(Instruction::Get);
            },
            _ => {},
        }
        Ok(())
    }

    /// The end of an assignment, behind `=`, which stood at `tkn`.
    fn assign_value(&mut self, state: AssignCallState, tkn: Token) -> (r: Result<(), Error>)
        requires
            old(self).wf(),
            match state {
                AssignCallState::Identifier(token) => token.within(old(self)@.text.len()),
                _ => true,
            },
        ensures
            (final(self)@, result_view(r)) == old(self)@.assign_value(state, tkn),
            final(self)@.follows(old(self)@),
            final(self).wf(),
            final(self)@.scopes == old(self)@.scopes,
    {
        if state.endable() {
            match self.expr() {
                Ok(_) => {},
                Err(e) => {
                    return Err(e);
                },
            }
            let i = if let AssignCallState::Identifier(token) = state {
                match self.compile_store_id(token) {
                    Ok(i) => i,
                    Err(e) => {
                        return Err(e);
                    },
                }
            } else {
                Instruction::SetAt
            };
            self.emit(i);
            Ok(())
        } else {
            Err(self.error_unexpected(tkn))
        }
    }

    /// An index, behind `[`.
    fn index_part(&mut self, state: AssignCallState) -> (r: Result<(), Error>)
        requires
            old(self).wf(),
            match state {
                AssignCallState::Identifier(token) => token.within(old(self)@.text.len()),
                _ => true,
            },
        ensures
            (final(self)@, result_view(r)) == old(self)@.index_part(state),
            final(self)@.follows(old(self)@),
            final(self).wf(),
            final(self)@.scopes == old(self)@.scopes,
    {
        match self.flush_lvalue(state) {
            Ok(_) => {},
            Err(e) => {
                return Err(e);
            },
        }
        match self.expr() {
            Ok(_) => {},
            Err(e) => {
                return Err(e);
            },
        }
        match self.expect(TokenKind::Single(']')) {
            Ok(_) => Ok(()),
            Err(e) => Err(e),
        }
    }

    /// A call, behind `(`.
    fn call_part(&mut self, state: AssignCallState) -> (r: Result<(), Error>)
        requires
            old(self).wf(),
            match state {
                AssignCallState::Identifier(token) => token.within(old(self)@.text.len()),
                _ => true,
            },
        ensures
            (final(self)@, result_view(r)) == old(self)@.call_part(state),
            final(self)@.follows(old(self)@),
            final(self).wf(),
            final(self)@.scopes == old(self)@.scopes,
    {
        match self.flush_lvalue(state) {
            Ok(_) => {},
            Err(e) => {
                return Err(e);
            },
        }
        let count = match self.explist(')') {
            Ok(count) => count,
            Err(e) => {
                return Err(e);
            },
        };
        self.emit(Instruction::Call(count));
        Ok(())
    }

    /// One part of the rest of a statement that assigns or calls.
    fn assign_step(&mut self, state: AssignCallState) -> (r: Result<
        Option<AssignCallState>,
        Error,
    >)
        requires
            old(self).wf(),
            match state {
                AssignCallState::Identifier(token) => token.within(old(self)@.text.len()),
                _ => true,
            },
        ensures
            (final(self)@, result_view(r)) == old(self)@.assign_step(state),
            final(self)@.follows(old(self)@),
            final(self).wf(),
            final(self)@.scopes == old(self)@.scopes,
            r matches Ok(Some(next)) ==> final(self)@.remaining() < old(self)@.remaining() && !(
            next is Identifier),
    {
        reveal(State::assign_step);
        let tkn = match self.peek() {
            Ok(t) => t,
            Err(e) => {
                return Err(e);
            },
        };
        if tkn.is('=') {
            let _ = self.pop();
            match self.assign_value(state, tkn) {
                Ok(_) => Ok(None),
                Err(e) => Err(e),
            }
        } else if tkn.is('[') {
            let _ = self.pop();
            match self.index_part(state) {
                Ok(_) => Ok(Some(AssignCallState::Index)),
                Err(e) => Err(e),
            }
        } else if tkn.is('(') {
            let _ = self.pop();
            match self.call_part(state) {
                Ok(_) => Ok(Some(AssignCallState::Call)),
                Err(e) => Err(e),
            }
        } else {
            if state == AssignCallState::Call {
                self.emit(Instruction::Pop(1));
                Ok(None)
            } else {
                Err(self.error_unexpected(tkn))
            }
        }
    }

    /// The rest of a statement that assigns or calls.
    fn assign_tail(&mut self, state: AssignCallState) -> (r: Result<(), Error>)
        requires
            old(self).wf(),
            match state {
                AssignCallState::Identifier(token) => token.within(old(self)@.text.len()),
                _ => true,
            },
        ensures
            (final(self)@, result_view(r)) == old(self)@.assign_tail(state),
            final(self)@.follows(old(self)@),
            final(self).wf(),
            final(self)@.scopes == old(self)@.scopes,
    {
        let mut current = state;
        loop
            invariant
                self.wf(),
                self@.follows(old(self)@),
                self@.scopes == old(self)@.scopes,
                match current {
                    AssignCallState::Identifier(token) => token.within(self@.text.len()),
                    _ => true,
                },
                old(self)@.assign_tail(state) == self@.assign_tail(current),
            decreases self@.remaining(),
        {
            match self.assign_step(current) {
                Ok(Some(next)) => {
                    current = next;
                },
                Ok(None) => {
                    return Ok(());
                },
                Err(e) => {
                    return Err(e);
                },
            }
        }
    }

    /// A statement that assigns or calls.
    pub fn assign_call(&mut self) -> (r: Result<(), Error>)
        requires
            old(self).wf(),
        ensures
            (final(self)@, result_view(r)) == old(self)@.assign_call(),
            final(self)@.follows(old(self)@),
            final(self).wf(),
            final(self)@.scopes == old(self)@.scopes,
            r is Ok ==> final(self)@.remaining() < old(self)@.remaining(),
    {
        let tkn = match self.pop() {
            Ok(t) => t,
            Err(e) => {
                return Err(e);
            },
        };
        let state = if tkn.is('(') {
            match self.expr() {
                Ok(_) => {},
                Err(e) => {
                    return Err(e);
                },
            }
            match self.expect(TokenKind::Single(')')) {
                Ok(_) => {},
                Err(e) => {
                    return Err(e);
                },
            }
            AssignCallState::InitialRvalue
        } else if tkn.is('[') {
            let count = match self.explist(']') {
                Ok(count) => count,
                Err(e) => {
                    return Err(e);
                },
            };
            self.emit(Instruction::Anew(count));
            AssignCallState::InitialRvalue
        } else if tkn.kind == TokenKind::Identifier {
            AssignCallState::Identifier(tkn)
        } else {
            return Err(self.error_unexpected(tkn));
        };
        self.assign_tail(state)
    }

    /// Sets the operand of the branch at `at` so that it leads to the end of
    /// the code written so far.
    fn patch(&mut self, at: usize) -> (r: Result<(), Error>)
        requires
            old(self).wf(),
            old(self)@.branch(at),
        ensures
            (final(self)@, result_view(r)) == old(self)@.patch(at),
            final(self)@.patches(old(self)@, at),
            final(self).wf(),
            final(self)@.scopes == old(self)@.scopes,
            final(self)@.offset == old(self)@.offset,
            final(self)@.remaining() == old(self)@.remaining(),
    {
        let end = self.vm.bin().len();
        if end < 3 || at > end - 3 || end > 0xffff {
            return Err(Error::BranchTooFar);
        }
        let offset = end - 3 - at;
        self.vm.patch(at + 1, (offset / 256) as u8);
        self.vm.patch(at + 2, (offset % 256) as u8);
        proof {
            lemma_konsts_patch(
                old(self)@.vm.bin,
                at as int,
                (offset / 256) as u8,
                (offset % 256) as u8,
                0,
                old(self)@.vm.constants.len(),
            );
        }
        Ok(())
    }

    /// Emits the `jmp` that leads back to `start`.
    fn jump_back(&mut self, start: usize) -> (r: Result<(), Error>)
        requires
            old(self).wf(),
        ensures
            (final(self)@, result_view(r)) == old(self)@.jump_back(start),
            final(self)@.follows(old(self)@),
            final(self).wf(),
            final(self)@.scopes == old(self)@.scopes,
            final(self)@.remaining() == old(self)@.remaining(),
    {
        let end = self.vm.bin().len();
        if end > 0xffff - 3 || start > end + 3 {
            return Err(Error::BranchTooFar);
        }
        let back = end + 3 - start;
        let offset: u16 = if back == 0 {
            0
        } else {
            (0x1_0000 - back) as u16
        };
        self.emit(Instruction::Jmp(offset));
        Ok(())
    }

    /// The condition of an `if` or a `while`, up to the brace that opens
    /// the block. Gives the place of the `cjmp`.
    fn condition(&mut self) -> (r: Result<usize, Error>)
        requires
            old(self).wf(),
        ensures
            (final(self)@, result_view(r)) == old(self)@.condition(),
            final(self)@.follows(old(self)@),
            final(self).wf(),
            final(self)@.scopes == old(self)@.scopes,
            final(self)@.offset == old(self)@.offset,
            r matches Ok(at) ==> final(self)@.branch(at) && at >= old(self)@.vm.bin.len(),
    {
        match self.expr() {
            Ok(_) => {},
            Err(e) => {
                return Err(e);
            },
        }
        match self.expect(TokenKind::Single('{')) {
            Ok(_) => {},
            Err(e) => {
                return Err(e);
            },
        }
        let at = self.vm.bin().len();
        let ghost before = self@;
        self.emit(Instruction::Cjmp(0));
        proof {
            lemma_branch_emitted(before, Instruction::Cjmp(0));
        }
        Ok(at)
    }

    /// A `while`.
    pub fn while_stmt(&mut self) -> (r: Result<(), Error>)
        requires
            old(self).wf(),
            old(self)@.scopes.len() >= 2,
            old(self)@.fits(),
        ensures
            (final(self)@, result_view(r)) == old(self)@.while_stmt(),
            final(self)@.follows(old(self)@),
            final(self).wf(),
            r is Ok ==> final(self)@.scopes == old(self)@.scopes,
            r is Ok ==> final(self)@.offset == old(self)@.offset,
            r is Ok ==> final(self)@.remaining() < old(self)@.remaining(),
        decreases old(self)@.remaining(), 1nat,
    {
        match self.expect(TokenKind::While) {
            Ok(_) => {},
            Err(e) => {
                return Err(e);
            },
        }
        let start = self.vm.bin().len();
        let at = match self.condition() {
            Ok(at) => at,
            Err(e) => {
                return Err(e);
            },
        };
        let ghost opened = self@;
        match self.block(TokenKind::Single('}')) {
            Ok(_) => {},
            Err(e) => {
                return Err(e);
            },
        }
        match self.jump_back(start) {
            Ok(_) => {},
            Err(e) => {
                return Err(e);
            },
        }
        proof {
            lemma_branch_kept(opened, self@, at);
        }
        self.patch(at)
    }

    /// What follows the block of an `if` whose `cjmp` stands at `at`.
    fn otherwise(&mut self, at: usize) -> (r: Result<(), Error>)
        requires
            old(self).wf(),
            old(self)@.scopes.len() >= 2,
            old(self)@.fits(),
            old(self)@.branch(at),
        ensures
            (final(self)@, result_view(r)) == old(self)@.otherwise(at),
            final(self)@.patches(old(self)@, at),
            final(self).wf(),
            r is Ok ==> final(self)@.scopes == old(self)@.scopes,
            r is Ok ==> final(self)@.offset == old(self)@.offset,
        decreases old(self)@.remaining(), 0nat,
    {
        let t = match self.peek() {
            Ok(t) => t,
            Err(e) => {
                return Err(e);
            },
        };
        if t.kind != TokenKind::Else {
            return self.patch(at);
        }
        let _ = self.pop();
        let jat = self.vm.bin().len();
        let ghost first = self@;
        self.emit(Instruction::Jmp(0));
        let ghost jumped = self@;
        proof {
            lemma_branch_emitted(first, Instruction::Jmp(0));
            lemma_branch_kept(first, jumped, at);
        }
        match self.patch(at) {
            Ok(_) => {},
            Err(e) => {
                return Err(e);
            },
        }
        let ghost patched = self@;
        proof {
            let head = first.vm.bin;
            let hi = patched.vm.bin[at + 1];
            let lo = patched.vm.bin[at + 2];
            lemma_konsts_patch(head, at as int, hi, lo, 0, first.vm.constants.len());
            assert(patched.vm.bin.take(jat as int) =~= head.update(at + 1, hi).update(at + 2, lo));
        }
        match self.expect(TokenKind::Single('{')) {
            Ok(_) => {},
            Err(e) => {
                return Err(e);
            },
        }
        match self.block(TokenKind::Single('}')) {
            Ok(_) => {},
            Err(e) => {
                return Err(e);
            },
        }
        proof {
            lemma_branch_kept(patched, self@, jat);
        }
        self.patch(jat)
    }

    /// An `if`, with or without `else`.
    pub fn if_stmt(&mut self) -> (r: Result<(), Error>)
        requires
            old(self).wf(),
            old(self)@.scopes.len() >= 2,
            old(self)@.fits(),
        ensures
            (final(self)@, result_view(r)) == old(self)@.if_stmt(),
            final(self)@.follows(old(self)@),
            final(self).wf(),
            r is Ok ==> final(self)@.scopes == old(self)@.scopes,
            r is Ok ==> final(self)@.offset == old(self)@.offset,
            r is Ok ==> final(self)@.remaining() < old(self)@.remaining(),
        decreases old(self)@.remaining(), 1nat,
    {
        match self.expect(TokenKind::If) {
            Ok(_) => {},
            Err(e) => {
                return Err(e);
            },
        }
        let at = match self.condition() {
            Ok(at) => at,
            Err(e) => {
                return Err(e);
            },
        };
        let ghost opened = self@;
        match self.block(TokenKind::Single('}')) {
            Ok(_) => {},
            Err(e) => {
                return Err(e);
            },
        }
        proof {
            lemma_branch_kept(opened, self@, at);
        }
        self.otherwise(at)
    }

    /// The declarations of a `let`, behind the keyword.
    fn let_stmt(&mut self) -> (r: Result<(), Error>)
        requires
            old(self).wf(),
            old(self)@.scopes.len() >= 2,
            old(self)@.fits(),
        ensures
            (final(self)@, result_view(r)) == ({
                let (s, r) = old(self)@.var_decl();
                match r {
                    Err(e) => (s, Err(e)),
                    Ok(_) => s.var_decls(),
                }
            }),
            final(self)@.follows(old(self)@),
            final(self).wf(),
            final(self)@.same_outer(old(self)@),
            r is Ok ==> final(self)@.remaining() < old(self)@.remaining(),
    {
        match self.var_decl() {
            Ok(_) => {},
            Err(e) => {
                return Err(e);
            },
        }
        self.var_decls()
    }

    /// The value of a `return`, behind the keyword, the `ret`, and the rest
    /// of the block, which is passed over.
    fn return_stmt(&mut self) -> (r: Result<(), Error>)
        requires
            old(self).wf(),
        ensures
            (final(self)@, result_view(r)) == ({
                let (s, r) = old(self)@.expr();
                match r {
                    Err(e) => (s, Err(e)),
                    Ok(_) => s.emit(Instruction::Ret).skip_rest(),
                }
            }),
            final(self)@.follows(old(self)@),
            final(self).wf(),
            final(self)@.scopes == old(self)@.scopes,
            r is Ok ==> final(self)@.remaining() < old(self)@.remaining(),
    {
        match self.expr() {
            Ok(_) => {},
            Err(e) => {
                return Err(e);
            },
        }
        self.emit(Instruction::Ret);
        self.skip_rest()
    }

    /// A statement.
    pub fn stmt(&mut self) -> (r: Result<(), Error>)
        requires
            old(self).wf(),
            old(self)@.scopes.len() >= 2,
            old(self)@.fits(),
        ensures
            (final(self)@, result_view(r)) == old(self)@.stmt(),
            final(self)@.follows(old(self)@),
            final(self).wf(),
            r is Ok ==> final(self)@.same_outer(old(self)@),
            r is Ok ==> final(self)@.remaining() < old(self)@.remaining(),
        decreases old(self)@.remaining(), 2nat,
    {
        let t = match self.peek() {
            Ok(t) => t,
            Err(e) => {
                return Err(e);
            },
        };
        if t.is('{') {
            let _ = self.pop();
            self.block(TokenKind::Single('}'))
        } else if t.kind == TokenKind::Let {
            let _ = self.pop();
            self.let_stmt()
        } else if t.kind == TokenKind::Return {
            let _ = self.pop();
            self.return_stmt()
        } else if t.kind == TokenKind::If {
            self.if_stmt()
        } else if t.kind == TokenKind::While {
            self.while_stmt()
        } else {
            self.assign_call()
        }
    }

    /// A block, whose opening brace is taken already, up to the token `end`.
    /// Behind it the scopes are those of before, and so is `offset`: the
    /// slots of the block's own declarations are free again.
    pub fn block(&mut self, end: TokenKind) -> (r: Result<(), Error>)
        requires
            old(self).wf(),
            old(self)@.fits(),
        ensures
            (final(self)@, result_view(r)) == old(self)@.block(end),
            final(self)@.follows(old(self)@),
            final(self).wf(),
            r is Ok ==> final(self)@.scopes == old(self)@.scopes,
            r is Ok ==> final(self)@.offset == old(self)@.offset,
            r is Ok && end != TokenKind::EOF ==> final(self)@.remaining() < old(
                self,
            )@.remaining(),
        decreases old(self)@.remaining(), 4nat,
    {
        self.new_scope();
        proof {
            assert(self@.scopes.drop_last() =~= old(self)@.scopes);
        }
        loop
            invariant
                self.wf(),
                self@.follows(old(self)@),
                old(self)@.fits(),
                old(self)@.offset == locals(old(self)@.scopes),
                self@.scopes.len() == old(self)@.scopes.len() + 1,
                self@.scopes.drop_last() == old(self)@.scopes,
                self@.scopes.len() >= 2,
                old(self)@.new_scope().block_body(end) == self@.block_body(end),
            decreases self@.remaining(),
        {
            let t = match self.peek() {
                Ok(t) => t,
                Err(e) => {
                    return Err(e);
                },
            };
            if t.kind == end {
                self.close_scope();
                let _ = self.pop();
                proof {
                    assert(self@.offset == locals(self@.scopes));
                }
                return Ok(());
            }
            match self.stmt() {
                Ok(_) => {},
                Err(e) => {
                    return Err(e);
                },
            }
        }
    }

    /// The parameters that follow the first.
    fn paramlist_tail(&mut self, count: usize) -> (r: Result<usize, Error>)
        requires
            old(self).wf(),
            old(self)@.scopes.len() >= 2,
            count <= old(self)@.frontier(),
            old(self)@.fits(),
        ensures
            (final(self)@, result_view(r)) == old(self)@.paramlist_tail(count),
            final(self)@.follows(old(self)@),
            final(self).wf(),
            final(self)@.scopes.len() == old(self)@.scopes.len(),
            final(self)@.vm == old(self)@.vm,
            r is Ok ==> final(self)@.remaining() < old(self)@.remaining(),
    {
        let mut param_count = count;
        loop
            invariant
                self.wf(),
                self@.follows(old(self)@),
                self@.scopes.len() == old(self)@.scopes.len(),
                self@.scopes.len() >= 2,
                old(self)@.fits(),
                self@.vm == old(self)@.vm,
                param_count <= self@.frontier(),
                old(self)@.paramlist_tail(count) == self@.paramlist_tail(param_count),
            decreases self@.remaining(),
        {
            let t = match self.peek() {
                Ok(t) => t,
                Err(e) => {
                    return Err(e);
                },
            };
            if !t.is(',') {
                return match self.expect(TokenKind::Single(')')) {
                    Ok(_) => Ok(param_count),
                    Err(e) => Err(e),
                };
            }
            let _ = self.pop();
            let id = match self.expect(TokenKind::Identifier) {
                Ok(id) => id,
                Err(e) => {
                    return Err(e);
                },
            };
            match self.register_decl(id) {
                Ok(_) => {},
                Err(e) => {
                    return Err(e);
                },
            }
            param_count = param_count + 1;
        }
    }

    /// The parameters of a function, in parentheses. Gives their number.
    pub fn paramlist(&mut self) -> (r: Result<usize, Error>)
        requires
            old(self).wf(),
            old(self)@.scopes.len() >= 2,
            old(self)@.fits(),
        ensures
            (final(self)@, result_view(r)) == old(self)@.paramlist(),
            final(self)@.follows(old(self)@),
            final(self).wf(),
            final(self)@.scopes.len() == old(self)@.scopes.len(),
            final(self)@.vm == old(self)@.vm,
            r is Ok ==> final(self)@.remaining() < old(self)@.remaining(),
    {
        match self.expect(TokenKind::Single('(')) {
            Ok(_) => {},
            Err(e) => {
                return Err(e);
            },
        }
        let t = match self.peek() {
            Ok(t) => t,
            Err(e) => {
                return Err(e);
            },
        };
        if t.is(')') {
            let _ = self.pop();
            Ok(0)
        } else {
            let id = match self.expect(TokenKind::Identifier) {
                Ok(id) => id,
                Err(e) => {
                    return Err(e);
                },
            };
            match self.register_decl(id) {
                Ok(_) => {},
                Err(e) => {
                    return Err(e);
                },
            }
            self.paramlist_tail(1)
        }
    }

    /// A function, whose `fn` is taken already. Tells whether it is `main`.
    pub fn function_body(&mut self) -> (r: Result<bool, Error>)
        requires
            old(self).wf(),
            old(self)@.scopes.len() == 1,
        ensures
            (final(self)@, result_view(r)) == old(self)@.function_body(),
            final(self)@.advances(old(self)@),
            final(self).wf(),
            r is Ok ==> final(self)@.scopes.len() == 1,
            r is Ok ==> final(self)@.remaining() < old(self)@.remaining(),
            r matches Ok(is_main) ==> if is_main {
                final(self)@.has_entry()
            } else {
                final(self)@.vm.entry == old(self)@.vm.entry
            },
    {
        let id = match self.expect(TokenKind::Identifier) {
            Ok(id) => id,
            Err(e) => {
                return Err(e);
            },
        };
        self.offset = 0;
        self.new_scope();
        let param_count = match self.paramlist() {
            Ok(count) => count,
            Err(e) => {
                return Err(e);
            },
        };
        let is_main = text_is(&self.scanner.text, id.from, id.len, "main");
        let ghost listed = self@;
        let idx = self.vm.rodata_function(param_count, is_main);
        proof {
            lemma_pool_grows(listed, self@);
        }
        let name = self.get_token_text(id);
        match self.register_const(name, idx) {
            Ok(_) => {},
            Err(e) => {
                return Err(e);
            },
        }
        match self.expect(TokenKind::Single('{')) {
            Ok(_) => {},
            Err(e) => {
                return Err(e);
            },
        }
        match self.block(TokenKind::Single('}')) {
            Ok(_) => {},
            Err(e) => {
                return Err(e);
            },
        }
        self.emit(Instruction::Nil);
        self.emit(Instruction::Ret);
        self.close_scope();
        Ok(is_main)
    }

    /// A source: functions, one of which must be `main`.
    pub fn source(&mut self) -> (r: Result<(), Error>)
        requires
            old(self).wf(),
            old(self)@.scopes.len() == 1,
        ensures
            (final(self)@, result_view(r)) == old(self)@.source(),
            final(self)@.advances(old(self)@),
            final(self).wf(),
            r is Ok ==> final(self)@.has_entry(),
    {
        let mut has_main = false;
        loop
            invariant
                self.wf(),
                self@.advances(old(self)@),
                self@.scopes.len() == 1,
                has_main ==> self@.has_entry(),
                old(self)@.source() == self@.source_tail(has_main),
            decreases self@.remaining(),
        {
            let t = match self.peek() {
                Ok(t) => t,
                Err(e) => {
                    return Err(e);
                },
            };
            let _ = self.pop();
            if t.kind == TokenKind::EOF {
                return if has_main {
                    Ok(())
                } else {
                    Err(Error::NoMainFunction)
                };
            }
            if t.kind == TokenKind::Fn {
                match self.function_body() {
                    Ok(is_main) => {
                        has_main = has_main || is_main;
                    },
                    Err(e) => {
                        return Err(e);
                    },
                }
            } else {
                return Err(self.error_unexpected(t));
            }
        }
    }

    /// Makes a native of the host a constant and binds `name` to it.
    fn native(&mut self, name: &str, func: usize, param_count: usize) -> (r: Result<(), Error>)
        requires
            old(self).wf(),
        ensures
            (final(self)@, result_view(r)) == old(self)@.native(name@, func, param_count),
            final(self)@.follows(old(self)@),
            final(self).wf(),
            final(self)@.scopes.len() == old(self)@.scopes.len(),
    {
        let idx = self.vm.rodata_native(func, param_count);
        proof {
            lemma_pool_grows(old(self)@, self@);
        }
        self.register_const(String::from_str(name), idx)
    }

    /// Binds the natives that every script can call.
    pub fn libs(&mut self) -> (r: Result<(), Error>)
        requires
            old(self).wf(),
        ensures
            (final(self)@, result_view(r)) == old(self)@.libs(),
            final(self)@.follows(old(self)@),
            final(self).wf(),
            final(self)@.scopes.len() == old(self)@.scopes.len(),
    {
        match self.native("print", NATIVE_PRINT, 1) {
            Ok(_) => {},
            Err(e) => {
                return Err(e);
            },
        }
        match self.native("len", NATIVE_LEN, 1) {
            Ok(_) => {},
            Err(e) => {
                return Err(e);
            },
        }
        match self.native("push", NATIVE_PUSH, 2) {
            Ok(_) => {},
            Err(e) => {
                return Err(e);
            },
        }
        self.native("pop", NATIVE_POP, 1)
    }

    /// Compiles the whole text: binds the natives, then reads the source.
    /// Whatever comes of it, the code written is made of whole instructions,
    /// and every `konst` in it names a constant of the pool as it then is.
    pub fn compile(&mut self) -> (r: Result<(), Error>)
        requires
            old(self).wf(),
            old(self)@.scopes.len() == 1,
        ensures
            (final(self)@, result_view(r)) == old(self)@.compile(),
            final(self)@.advances(old(self)@),
            final(self).wf(),
            final(self)@.indexed(),
            r is Ok ==> final(self)@.has_entry(),
    {
        match self.libs() {
            Ok(_) => {},
            Err(e) => {
                return Err(e);
            },
        }
        self.source()
    }
}

} // verus!
