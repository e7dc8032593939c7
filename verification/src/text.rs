//! Source text and the tokens cut from it.

use vstd::prelude::*;
use vstd::std_specs::iter::IteratorSpec;
use vstd::string::StrSliceExecFns;

verus! {

/// The category of a token.
#[derive(Clone, Copy, Debug, PartialEq, Eq, Structural)]
pub enum TokenKind {
    White,
    Comment,
    Identifier,
    Number,
    /// A one-character operator or bracket.
    Single(char),
    /// A two-character relational or equality operator.
    Double,
    Error,
    EOF,
    /// A single-quoted string, quotes included.
    Literal,
    Let,
    If,
    Else,
    While,
    Fn,
    Nil,
    True,
    False,
    Return,
}

/// A stretch of the source text and its category.
#[derive(Clone, Copy, Debug, PartialEq, Eq, Structural)]
pub struct Token {
    pub from: usize,
    pub len: usize,
    pub kind: TokenKind,
}

/// Appends one character to a string, through `String::push`: the string's
/// characters afterwards are those before, followed by `c`.
#[verifier::external_body]
pub(crate) fn push_char(s: &mut String, c: char)
    ensures
        final(s)@ == old(s)@.push(c),
{
    s.push(c)
}

/// The characters `text[from .. from + len]` as a string.
pub fn substring(text: &Vec<char>, from: usize, len: usize) -> (r: String)
    requires
        from + len <= text.len(),
    ensures
        r@ == text@.subrange(from as int, from + len),
{
    let mut r = String::new();
    let mut k: usize = 0;
    while k < len
        invariant
            k <= len,
            from + len <= text.len(),
            r@ == text@.subrange(from as int, from + k),
        decreases len - k,
    {
        push_char(&mut r, text[from + k]);
        k = k + 1;
    }
    r
}

/// The characters of `s`, one by one.
pub fn chars_of(s: &str) -> (v: Vec<char>)
    ensures
        v@ == s@,
{
    let mut v: Vec<char> = Vec::new();
    let mut it = s.chars();
    proof {
        broadcast use vstd::string::axiom_spec_iter;
    }
    loop
        invariant
            v@ + it.remaining() == s@,
            it.decrease() is Some,
        decreases it.decrease()->0,
    {
        let next = it.next();
        proof {
            broadcast use vstd::string::next_postcondition;
        }
        match next {
            Some(c) => {
                v.push(c);
            },
            None => {
                return v;
            },
        }
    }
}

/// Whether the characters `text[from .. from + len]` spell `word`.
pub fn text_is(text: &Vec<char>, from: usize, len: usize, word: &str) -> (r: bool)
    requires
        from + len <= text.len(),
    ensures
        r == (text@.subrange(from as int, from + len) == word@),
{
    if word.unicode_len() != len {
        return false;
    }
    let mut k: usize = 0;
    while k < len
        invariant
            k <= len,
            len == word@.len(),
            from + len <= text.len(),
            text@.subrange(from as int, from + k) == word@.take(k as int),
        decreases len - k,
    {
        if text[from + k] != word.get_char(k) {
            return false;
        }
        k = k + 1;
    }
    assert(word@.take(len as int) =~= word@);
    true
}

impl Token {
    /// The characters of `text` that the token covers.
    pub open spec fn text_of(self, text: Seq<char>) -> Seq<char> {
        text.subrange(self.from as int, self.from + self.len)
    }

    /// Whether the token lies inside a text of `len` characters.
    pub open spec fn within(self, len: nat) -> bool {
        self.from + self.len <= len
    }

    /// White space and comments carry no meaning and are skipped.
    pub fn is_discardable(&self) -> (r: bool)
        ensures
            r == (self.kind == TokenKind::White || self.kind == TokenKind::Comment),
    {
        self.kind == TokenKind::White || self.kind == TokenKind::Comment
    }

    pub fn is_error(&self) -> (r: bool)
        ensures
            r == (self.kind == TokenKind::Error),
    {
        self.kind == TokenKind::Error
    }

    /// Whether the token is the one-character token `c`.
    pub fn is(&self, c: char) -> (r: bool)
        ensures
            r == (self.kind == TokenKind::Single(c)),
    {
        self.kind == TokenKind::Single(c)
    }

    /// The token's text, read from the source that it was cut from.
    pub fn text(&self, text: &Vec<char>) -> (r: String)
        requires
            self.within(text@.len()),
        ensures
            r@ == self.text_of(text@),
    {
        substring(text, self.from, self.len)
    }
}

} // verus!
