//! The scanner: cuts the source text into tokens, one at a time.

use vstd::prelude::*;
use crate::text::{text_is, Token, TokenKind};

verus! {

/// White space, as Unicode defines it.
pub open spec fn is_whitespace(c: char) -> bool {
    let n = c as u32;
    (0x09 <= n <= 0x0d) || n == 0x20 || n == 0x85 || n == 0xa0 || n == 0x1680 || (0x2000 <= n
        <= 0x200a) || n == 0x2028 || n == 0x2029 || n == 0x202f || n == 0x205f || n == 0x3000
}

/// An ASCII decimal digit.
pub open spec fn is_digit(c: char) -> bool {
    '0' <= c <= '9'
}

/// An ASCII letter.
pub open spec fn is_letter(c: char) -> bool {
    ('a' <= c <= 'z') || ('A' <= c <= 'Z')
}

/// A character that may start an identifier.
pub open spec fn is_word_start(c: char) -> bool {
    is_letter(c) || c == '_'
}

/// A character that may continue an identifier.
pub open spec fn is_word_part(c: char) -> bool {
    is_letter(c) || is_digit(c) || c == '_'
}

/// A character that is a token by itself.
pub open spec fn is_single(c: char) -> bool {
    c == '+' || c == '-' || c == '*' || c == '/' || c == '%' || c == '[' || c == ']' || c == '('
        || c == ')' || c == '{' || c == '}' || c == ',' || c == '.'
}

/// A character that forms a two-character operator when `=` follows it.
pub open spec fn is_equal_follow(c: char) -> bool {
    c == '=' || c == '>' || c == '<' || c == '!'
}

/// The kinds of character runs that tokens are made of. No class holds the
/// character `'\0'`, which also stands for the end of the text.
#[derive(Clone, Copy, Debug, PartialEq, Eq, Structural)]
pub enum CharClass {
    White,
    Word,
    Digit,
    /// Inside a string literal: anything but the closing quote.
    Quoted,
    /// Inside a comment: anything but the end of the line.
    Remark,
}

impl CharClass {
    pub open spec fn holds(self, c: char) -> bool {
        match self {
            CharClass::White => is_whitespace(c),
            CharClass::Word => is_word_part(c),
            CharClass::Digit => is_digit(c),
            CharClass::Quoted => c != '\'' && c != '\0',
            CharClass::Remark => c != '\n' && c != '\0',
        }
    }

    /// Whether `c` belongs to the class.
    pub fn test(&self, c: char) -> (r: bool)
        ensures
            r == self.holds(c),
            c == '\0' ==> !r,
    {
        match self {
            CharClass::White => white(c),
            CharClass::Word => letter(c) || digit(c) || c == '_',
            CharClass::Digit => digit(c),
            CharClass::Quoted => c != '\'' && c != '\0',
            CharClass::Remark => c != '\n' && c != '\0',
        }
    }
}

fn white(c: char) -> (r: bool)
    ensures
        r == is_whitespace(c),
{
    let n: u32 = c as u32;
    (0x09 <= n && n <= 0x0d) || n == 0x20 || n == 0x85 || n == 0xa0 || n == 0x1680 || (0x2000 <= n
        && n <= 0x200a) || n == 0x2028 || n == 0x2029 || n == 0x202f || n == 0x205f || n == 0x3000
}

fn digit(c: char) -> (r: bool)
    ensures
        r == is_digit(c),
{
    '0' <= c && c <= '9'
}

fn letter(c: char) -> (r: bool)
    ensures
        r == is_letter(c),
{
    ('a' <= c && c <= 'z') || ('A' <= c && c <= 'Z')
}

fn single(c: char) -> (r: bool)
    ensures
        r == is_single(c),
{
    c == '+' || c == '-' || c == '*' || c == '/' || c == '%' || c == '[' || c == ']' || c == '('
        || c == ')' || c == '{' || c == '}' || c == ',' || c == '.'
}

/// The character at `at`, or `'\0'` behind the end of the text.
pub open spec fn char_at(text: Seq<char>, at: int) -> char {
    if 0 <= at < text.len() {
        text[at]
    } else {
        '\0'
    }
}

/// The end of the longest run of characters of `class` that starts at `from`.
pub open spec fn run_end(text: Seq<char>, from: int, class: CharClass) -> int
    decreases text.len() - from,
{
    if 0 <= from < text.len() && class.holds(text[from]) {
        run_end(text, from + 1, class)
    } else {
        from
    }
}

/// The kind of a word: that of the keyword it spells, or an identifier.
pub open spec fn word_kind(word: Seq<char>) -> TokenKind {
    if word == "if"@ {
        TokenKind::If
    } else if word == "while"@ {
        TokenKind::While
    } else if word == "else"@ {
        TokenKind::Else
    } else if word == "fn"@ {
        TokenKind::Fn
    } else if word == "false"@ {
        TokenKind::False
    } else if word == "true"@ {
        TokenKind::True
    } else if word == "nil"@ {
        TokenKind::Nil
    } else if word == "return"@ {
        TokenKind::Return
    } else if word == "let"@ {
        TokenKind::Let
    } else {
        TokenKind::Identifier
    }
}

/// The token that covers `text[from .. end]`.
pub open spec fn token_spec(from: int, end: int, kind: TokenKind) -> Token {
    Token { from: from as usize, len: (end - from) as usize, kind }
}

/// The token that starts at `at`, white space and comments included. At the
/// end of the text, and at a character `'\0'`, it is an empty `EOF` token.
pub open spec fn read_spec(text: Seq<char>, at: int) -> Token {
    let c = char_at(text, at);
    if c == '\0' {
        token_spec(at, at, TokenKind::EOF)
    } else if is_whitespace(c) {
        token_spec(at, run_end(text, at + 1, CharClass::White), TokenKind::White)
    } else if is_word_start(c) {
        let end = run_end(text, at + 1, CharClass::Word);
        token_spec(at, end, word_kind(text.subrange(at, end)))
    } else if c == '\'' {
        let end = run_end(text, at + 1, CharClass::Quoted);
        if char_at(text, end) == '\'' {
            token_spec(at, end + 1, TokenKind::Literal)
        } else {
            token_spec(at, end, TokenKind::Error)
        }
    } else if is_digit(c) {
        token_spec(at, run_end(text, at + 1, CharClass::Digit), TokenKind::Number)
    } else if c == '#' {
        let end = run_end(text, at + 1, CharClass::Remark);
        if char_at(text, end) == '\n' {
            token_spec(at, end + 1, TokenKind::Comment)
        } else {
            token_spec(at, end, TokenKind::Comment)
        }
    } else if is_single(c) {
        token_spec(at, at + 1, TokenKind::Single(c))
    } else if is_equal_follow(c) {
        if char_at(text, at + 1) == '=' {
            token_spec(at, at + 2, TokenKind::Double)
        } else {
            token_spec(at, at + 1, TokenKind::Single(c))
        }
    } else {
        token_spec(at, at + 1, TokenKind::Error)
    }
}

/// The first token at or behind `at` that is neither white space nor comment.
pub open spec fn next_spec(text: Seq<char>, at: int) -> Token
    decreases text.len() - at,
{
    let t = read_spec(text, at);
    if 0 <= at <= text.len() <= usize::MAX && (t.kind == TokenKind::White || t.kind
        == TokenKind::Comment) {
        proof {
            lemma_read_spec(text, at);
        }
        next_spec(text, at + t.len)
    } else {
        t
    }
}

/// A run ends between its start and the end of the text.
pub proof fn lemma_run_end(text: Seq<char>, from: int, class: CharClass)
    requires
        0 <= from <= text.len(),
    ensures
        from <= run_end(text, from, class) <= text.len(),
    decreases text.len() - from,
{
    if from < text.len() && class.holds(text[from]) {
        lemma_run_end(text, from + 1, class);
    }
}

/// A token starts where it was read and stays inside the text; only the
/// `EOF` token is empty.
pub proof fn lemma_read_spec(text: Seq<char>, at: int)
    requires
        0 <= at <= text.len() <= usize::MAX,
    ensures
        read_spec(text, at).from == at,
        at + read_spec(text, at).len <= text.len(),
        read_spec(text, at).kind != TokenKind::EOF ==> read_spec(text, at).len > 0,
        read_spec(text, at).kind == TokenKind::EOF ==> read_spec(text, at).len == 0,
{
    if at < text.len() {
        lemma_run_end(text, at + 1, CharClass::White);
        lemma_run_end(text, at + 1, CharClass::Word);
        lemma_run_end(text, at + 1, CharClass::Quoted);
        lemma_run_end(text, at + 1, CharClass::Digit);
        lemma_run_end(text, at + 1, CharClass::Remark);
    }
}

/// The token that `next_spec` gives stays inside the text, is neither white
/// space nor comment, and is empty only at the end.
pub proof fn lemma_next_spec(text: Seq<char>, at: int)
    requires
        0 <= at <= text.len() <= usize::MAX,
    ensures
        at <= next_spec(text, at).from,
        next_spec(text, at).from + next_spec(text, at).len <= text.len(),
        next_spec(text, at).kind != TokenKind::White,
        next_spec(text, at).kind != TokenKind::Comment,
        next_spec(text, at).kind != TokenKind::EOF ==> next_spec(text, at).len > 0,
    decreases text.len() - at,
{
    lemma_read_spec(text, at);
    let t = read_spec(text, at);
    if t.kind == TokenKind::White || t.kind == TokenKind::Comment {
        lemma_next_spec(text, at + t.len);
    }
}

/// A cursor over the source text. `old_ptr` marks where the token under way
/// began, `ptr` the next character to read.
pub struct Scanner {
    pub text: Vec<char>,
    pub old_ptr: usize,
    pub ptr: usize,
}

impl Scanner {
    /// Both marks lie inside the text, in order.
    pub open spec fn wf(&self) -> bool {
        self.old_ptr <= self.ptr <= self.text@.len()
    }

    /// A scanner at the start of `text`.
    pub fn new(text: Vec<char>) -> (s: Scanner)
        ensures
            s.text == text,
            s.ptr == 0,
            s.old_ptr == 0,
            s.wf(),
    {
        Scanner { text, ptr: 0, old_ptr: 0 }
    }

    /// The token of kind `kind` that covers what was read since the last `sync`.
    pub fn token(&self, kind: TokenKind) -> (t: Token)
        requires
            self.wf(),
        ensures
            t == token_spec(self.old_ptr as int, self.ptr as int, kind),
    {
        Token { from: self.old_ptr, len: self.ptr - self.old_ptr, kind }
    }

    /// The next character, or `'\0'` at the end of the text.
    pub fn peek(&self) -> (c: char)
        ensures
            c == char_at(self.text@, self.ptr as int),
    {
        if self.ptr >= self.text.len() {
            '\0'
        } else {
            self.text[self.ptr]
        }
    }

    /// Reads one character.
    pub fn pop(&mut self) -> (c: char)
        requires
            old(self).ptr < old(self).text@.len(),
        ensures
            c == old(self).text@[old(self).ptr as int],
            final(self).ptr == old(self).ptr + 1,
            final(self).old_ptr == old(self).old_ptr,
            final(self).text == old(self).text,
    {
        let c = self.peek();
        proof {
            broadcast use vstd::std_specs::vec::axiom_spec_len;

            assert(self.text@.len() == self.text.len());
        }
        self.ptr = self.ptr + 1;
        c
    }

    /// Reads on for as long as the next character belongs to `class`.
    pub fn skip(&mut self, class: CharClass)
        requires
            old(self).ptr <= old(self).text@.len(),
        ensures
            final(self).ptr == run_end(old(self).text@, old(self).ptr as int, class),
            old(self).ptr <= final(self).ptr <= old(self).text@.len(),
            final(self).old_ptr == old(self).old_ptr,
            final(self).text == old(self).text,
    {
        while class.test(self.peek())
            invariant
                old(self).ptr <= self.ptr <= self.text@.len(),
                self.old_ptr == old(self).old_ptr,
                self.text == old(self).text,
                run_end(self.text@, self.ptr as int, class) == run_end(
                    self.text@,
                    old(self).ptr as int,
                    class,
                ),
            decreases self.text@.len() - self.ptr,
        {
            self.pop();
        }
    }

    /// The kind of the word read since the last `sync`.
    fn word(&self) -> (kind: TokenKind)
        requires
            self.wf(),
        ensures
            kind == word_kind(self.text@.subrange(self.old_ptr as int, self.ptr as int)),
    {
        let from = self.old_ptr;
        let len = self.ptr - self.old_ptr;
        if text_is(&self.text, from, len, "if") {
            TokenKind::If
        } else if text_is(&self.text, from, len, "while") {
            TokenKind::While
        } else if text_is(&self.text, from, len, "else") {
            TokenKind::Else
        } else if text_is(&self.text, from, len, "fn") {
            TokenKind::Fn
        } else if text_is(&self.text, from, len, "false") {
            TokenKind::False
        } else if text_is(&self.text, from, len, "true") {
            TokenKind::True
        } else if text_is(&self.text, from, len, "nil") {
            TokenKind::Nil
        } else if text_is(&self.text, from, len, "return") {
            TokenKind::Return
        } else if text_is(&self.text, from, len, "let") {
            TokenKind::Let
        } else {
            TokenKind::Identifier
        }
    }

    /// Reads one token, white space and comments included.
    pub fn read(&mut self) -> (t: Token)
        requires
            old(self).wf(),
            old(self).old_ptr == old(self).ptr,
        ensures
            t == read_spec(old(self).text@, old(self).ptr as int),
            final(self).ptr == t.from + t.len,
            final(self).old_ptr == old(self).old_ptr,
            final(self).text == old(self).text,
            final(self).wf(),
    {
        let c = self.peek();
        if c == '\0' {
            return self.token(TokenKind::EOF);
        }
        self.pop();
        if white(c) {
            self.skip(CharClass::White);
            self.token(TokenKind::White)
        } else if letter(c) || c == '_' {
            self.skip(CharClass::Word);
            let kind = self.word();
            self.token(kind)
        } else if c == '\'' {
            self.skip(CharClass::Quoted);
            if self.peek() == '\'' {
                self.pop();
                self.token(TokenKind::Literal)
            } else {
                self.token(TokenKind::Error)
            }
        } else if digit(c) {
            self.skip(CharClass::Digit);
            self.token(TokenKind::Number)
        } else if c == '#' {
            self.skip(CharClass::Remark);
            if self.peek() == '\n' {
                self.pop();
            }
            self.token(TokenKind::Comment)
        } else if single(c) {
            self.token(TokenKind::Single(c))
        } else if c == '=' || c == '>' || c == '<' || c == '!' {
            if self.peek() == '=' {
                self.pop();
                self.token(TokenKind::Double)
            } else {
                self.token(TokenKind::Single(c))
            }
        } else {
            self.token(TokenKind::Error)
        }
    }

    /// Starts the next token where the last one ended.
    pub fn sync(&mut self)
        ensures
            final(self).old_ptr == old(self).ptr,
            final(self).ptr == old(self).ptr,
            final(self).text == old(self).text,
    {
        self.old_ptr = self.ptr
    }

    /// The next token that is neither white space nor comment; at the end of
    /// the text the `EOF` token, again and again.
    pub fn next(&mut self) -> (t: Token)
        requires
            old(self).wf(),
            old(self).old_ptr == old(self).ptr,
        ensures
            t == next_spec(old(self).text@, old(self).ptr as int),
            final(self).ptr == t.from + t.len,
            final(self).old_ptr == final(self).ptr,
            final(self).text == old(self).text,
            final(self).wf(),
    {
        proof {
            broadcast use vstd::std_specs::vec::axiom_spec_len;

            assert(self.text@.len() == self.text.len());
            lemma_read_spec(self.text@, self.ptr as int);
        }
        let mut t = self.read();
        self.sync();
        while t.is_discardable()
            invariant
                self.wf(),
                self.text@.len() <= usize::MAX,
                self.old_ptr == self.ptr,
                self.text == old(self).text,
                self.ptr == t.from + t.len,
                next_spec(self.text@, old(self).ptr as int) == if t.kind == TokenKind::White
                    || t.kind == TokenKind::Comment {
                    next_spec(self.text@, self.ptr as int)
                } else {
                    t
                },
            decreases
                    self.text@.len() - self.ptr + if t.kind == TokenKind::White || t.kind
                        == TokenKind::Comment {
                        1int
                    } else {
                        0int
                    },
        {
            proof {
                lemma_read_spec(self.text@, self.ptr as int);
            }
            t = self.read();
            self.sync();
        }
        t
    }
}

} // verus!
