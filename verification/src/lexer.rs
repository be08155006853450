//! Concrete-syntax tokenizer: turns a line of input into the tokens of the
//! grammar (parentheses, the abstraction mark, a binder dot, one-character
//! variables), skipping whitespace.

use vstd::prelude::*;
use vstd::string::StrSliceExecFns;

verus! {

/// A token of the concrete syntax.
#[derive(Debug, Clone, Copy, PartialEq, Eq, Structural)]
pub enum Token {
    Lpar,
    Rpar,
    Var(char),
    Lambda,
    Dot,
    Eof,
}

/// Whether the character counts as whitespace.
pub uninterp spec fn whitespace_char(c: char) -> bool;

/// Whether the character counts as alphabetic, so that it can name a variable.
pub uninterp spec fn alphabetic_char(c: char) -> bool;

/// Relies on `char::is_whitespace`: whether the character has the Unicode
/// whitespace property, a function of the character alone.
#[verifier::external_body]
fn is_whitespace_char(c: char) -> (r: bool)
    ensures
        r == whitespace_char(c),
{
    c.is_whitespace()
}

/// Relies on `char::is_alphabetic`: whether the character is Unicode
/// alphabetic, a function of the character alone.
#[verifier::external_body]
fn is_alphabetic_char(c: char) -> (r: bool)
    ensures
        r == alphabetic_char(c),
{
    c.is_alphabetic()
}

/// The token that a single character stands for, if any.
pub open spec fn token_of(c: char) -> Option<Token> {
    if c == '(' {
        Some(Token::Lpar)
    } else if c == ')' {
        Some(Token::Rpar)
    } else if c == '^' {
        Some(Token::Lambda)
    } else if alphabetic_char(c) {
        Some(Token::Var(c))
    } else if c == '.' {
        Some(Token::Dot)
    } else {
        None
    }
}

/// The first position at or after `pos` whose character is not whitespace,
/// or the line's length when only whitespace remains.
pub open spec fn skip_ws(line: Seq<char>, pos: nat) -> nat
    decreases line.len() - pos,
{
    if pos >= line.len() {
        line.len()
    } else if whitespace_char(line[pos as int]) {
        skip_ws(line, pos + 1)
    } else {
        pos
    }
}

/// What one lookahead from position `pos` yields: the token found at the
/// first non-whitespace character, or nothing at the line's end or on a
/// character outside the grammar.
pub open spec fn lookahead(line: Seq<char>, pos: nat) -> Option<Token> {
    if pos >= line.len() || skip_ws(line, pos) >= line.len() {
        None
    } else {
        token_of(line[skip_ws(line, pos) as int])
    }
}

/// A stream of tokens over one line of input. Reading a token first skips
/// whitespace, moving the cursor forward permanently.
pub struct TokenStream {
    position: usize,
    line: Vec<char>,
}

impl TokenStream {
    /// The characters of the line being tokenized.
    pub closed spec fn chars(self) -> Seq<char> {
        self.line@
    }

    /// The cursor: everything before it has been consumed or skipped.
    pub closed spec fn cursor(self) -> nat {
        self.position as nat
    }

    /// A fresh stream over the line, with the cursor at its start.
    pub fn new(line: String) -> (s: Self)
        ensures
            s.chars() == line@,
            s.cursor() == 0,
    {
        let slice = line.as_str();
        let n = slice.unicode_len();
        let mut buf: Vec<char> = Vec::new();
        let mut i: usize = 0;
        while i < n
            invariant
                i <= n,
                n == slice@.len(),
                slice@ == line@,
                buf@ =~= line@.take(i as int),
            decreases n - i,
        {
            buf.push(slice.get_char(i));
            proof {
                assert(buf@ =~= line@.take(i + 1));
            }
            i += 1;
        }
        proof {
            assert(line@.take(n as int) =~= line@);
        }
        TokenStream { position: 0, line: buf }
    }

    /// The next token without consuming it; whitespace before it is skipped
    /// for good. `None` at the end of the line or on a character outside the
    /// grammar.
    pub fn peek(&mut self) -> (r: Option<Token>)
        ensures
            final(self).chars() == old(self).chars(),
            final(self).cursor() >= old(self).cursor(),
            r == lookahead(old(self).chars(), old(self).cursor()),
            r is Some ==> final(self).cursor() == skip_ws(old(self).chars(), old(self).cursor())
                && final(self).cursor() < final(self).chars().len(),
    {
        self.peek_internal().0
    }

    /// The lookahead together with how many characters it occupies: one for
    /// a token, none at the end or on a character outside the grammar.
    fn peek_internal(&mut self) -> (r: (Option<Token>, usize))
        ensures
            final(self).chars() == old(self).chars(),
            final(self).cursor() >= old(self).cursor(),
            r.0 == lookahead(old(self).chars(), old(self).cursor()),
            r.0 is Some ==> r.1 == 1,
            r.0 is None ==> r.1 == 0,
            r.0 is Some ==> final(self).cursor() == skip_ws(old(self).chars(), old(self).cursor())
                && final(self).cursor() < final(self).chars().len(),
    {
        if self.position >= self.line.len() {
            return (None, 0);
        }

        let ghost start: nat = self.position as nat;
        let mut symbol = self.line[self.position];
        let mut ws = is_whitespace_char(symbol);

        while ws
            invariant
                self.line@ == old(self).line@,
                old(self).position <= self.position,
                start == old(self).position as nat,
                self.position < self.line@.len(),
                symbol == self.line@[self.position as int],
                ws == whitespace_char(symbol),
                skip_ws(self.line@, start) == skip_ws(self.line@, self.position as nat),
            decreases self.line@.len() - self.position,
        {
            if self.position == self.line.len() - 1 {
                proof {
                    assert(skip_ws(self.line@, (self.position + 1) as nat) == self.line@.len());
                    assert(skip_ws(self.line@, self.position as nat) == self.line@.len());
                }
                return (None, 0);
            }
            self.position += 1;
            symbol = self.line[self.position];
            ws = is_whitespace_char(symbol);
        }

        if symbol == '(' {
            (Some(Token::Lpar), 1)
        } else if symbol == ')' {
            (Some(Token::Rpar), 1)
        } else if symbol == '^' {
            (Some(Token::Lambda), 1)
        } else if is_alphabetic_char(symbol) {
            (Some(Token::Var(symbol)), 1)
        } else if symbol == '.' {
            (Some(Token::Dot), 1)
        } else {
            (None, 0)
        }
    }

    /// The next token, consumed: the cursor moves past it.
    pub fn next(&mut self) -> (r: Option<Token>)
        ensures
            final(self).chars() == old(self).chars(),
            final(self).cursor() >= old(self).cursor(),
            r == lookahead(old(self).chars(), old(self).cursor()),
            r is Some ==> final(self).cursor() == skip_ws(old(self).chars(), old(self).cursor())
                + 1,
    {
        let (result, count) = self.peek_internal();
        proof {
            broadcast use vstd::std_specs::vec::axiom_spec_len;
            assert(self.line@.len() == self.line.len());
        }
        self.position += count;
        result
    }
}

} // verus!
