//! The lexer: a cursor over the input's characters that hands out one token
//! at a time, together with the specification-level tokenizer it is proved
//! against.
use vstd::prelude::*;
use vstd::string::StrSliceExecFns;
use vstd::string::StringExecFns;
use crate::chars::{is_space, is_digit, is_number_char};
use crate::chars::{spec_is_space, spec_is_digit, spec_is_number_char};
use crate::token::{Token, Lexeme};

verus! {

/// Where the run of digit and `.` characters that starts at `i` ends: the
/// first index at or after `i` holding no such character.
pub open spec fn num_end(s: Seq<char>, i: int) -> int
    decreases s.len() - i,
{
    if i < 0 || i >= s.len() || !spec_is_number_char(s[i]) {
        i
    } else {
        num_end(s, i + 1)
    }
}

pub proof fn lemma_num_end(s: Seq<char>, i: int)
    ensures
        i <= num_end(s, i),
        i <= s.len() ==> num_end(s, i) <= s.len(),
        forall|k: int| i <= k < num_end(s, i) ==> spec_is_number_char(s[k]),
        0 <= i <= s.len() ==> (num_end(s, i) == s.len() || !spec_is_number_char(
            s[num_end(s, i)],
        )),
    decreases s.len() - i,
{
    if i < 0 || i >= s.len() || !spec_is_number_char(s[i]) {
    } else {
        lemma_num_end(s, i + 1);
    }
}

pub proof fn lemma_num_end_is(s: Seq<char>, i: int, j: int)
    requires
        0 <= i <= j <= s.len(),
        forall|k: int| i <= k < j ==> spec_is_number_char(s[k]),
        j == s.len() || !spec_is_number_char(s[j]),
    ensures
        num_end(s, i) == j,
    decreases j - i,
{
    if i < j {
        lemma_num_end_is(s, i + 1, j);
    }
}

/// The tokens of `s` from position `i` on. Whitespace before a token is
/// skipped; a digit starts a number that greedily takes the following digits
/// and `.` characters; the six single-character tokens map one to one; any
/// other character ends the stream, exactly as running out of input does, so
/// no end marker appears in the sequence itself.
pub open spec fn spec_tokens_at(s: Seq<char>, i: int) -> Seq<Lexeme>
    decreases s.len() - i,
    via spec_tokens_at_decreases
{
    if i < 0 || i >= s.len() {
        seq![]
    } else if spec_is_space(s[i]) {
        spec_tokens_at(s, i + 1)
    } else if spec_is_digit(s[i]) {
        seq![Lexeme::Number(s.subrange(i, num_end(s, i + 1)))] + spec_tokens_at(
            s,
            num_end(s, i + 1),
        )
    } else if s[i] == '+' {
        seq![Lexeme::Plus] + spec_tokens_at(s, i + 1)
    } else if s[i] == '-' {
        seq![Lexeme::Minus] + spec_tokens_at(s, i + 1)
    } else if s[i] == '*' {
        seq![Lexeme::Multiply] + spec_tokens_at(s, i + 1)
    } else if s[i] == '/' {
        seq![Lexeme::Divide] + spec_tokens_at(s, i + 1)
    } else if s[i] == '(' {
        seq![Lexeme::LParen] + spec_tokens_at(s, i + 1)
    } else if s[i] == ')' {
        seq![Lexeme::RParen] + spec_tokens_at(s, i + 1)
    } else {
        seq![]
    }
}

#[via_fn]
proof fn spec_tokens_at_decreases(s: Seq<char>, i: int) {
    lemma_num_end(s, i + 1);
}

/// The full token sequence of an input.
pub open spec fn spec_tokens(s: Seq<char>) -> Seq<Lexeme> {
    spec_tokens_at(s, 0)
}

/// An exclusively owned cursor over the input: the characters already given
/// out are exactly those before `pos`.
pub struct Lexer<'a> {
    pub input: &'a str,
    pub pos: usize,
}

impl<'a> Lexer<'a> {
    pub open spec fn wf(self) -> bool {
        self.pos <= self.input@.len()
    }

    /// The tokens this lexer has not yet produced.
    pub open spec fn remaining(self) -> Seq<Lexeme> {
        spec_tokens_at(self.input@, self.pos as int)
    }

    pub fn new(input: &'a str) -> (lexer: Lexer<'a>)
        ensures
            lexer.wf(),
            lexer.input@ == input@,
            lexer.pos == 0,
            lexer.remaining() == spec_tokens(input@),
    {
        Lexer { input, pos: 0 }
    }

    /// Skips leading whitespace, then produces the next token, consuming
    /// exactly its characters. `Eof` means the input is exhausted or the next
    /// character is unrecognized; either way no tokens remain.
    pub fn next_token(&mut self) -> (t: Token)
        requires
            old(self).wf(),
        ensures
            final(self).wf(),
            final(self).input@ == old(self).input@,
            old(self).pos <= final(self).pos,
            t@ is Eof ==> old(self).remaining() =~= Seq::<Lexeme>::empty(),
            !(t@ is Eof) ==> old(self).pos < final(self).pos && old(self).remaining() == seq![t@]
                + final(self).remaining(),
    {
        let n = self.input.unicode_len();
        while self.pos < n && is_space(self.input.get_char(self.pos))
            invariant
                self.input == old(self).input,
                self.pos <= n,
                n as nat == self.input@.len(),
                old(self).pos <= self.pos,
                spec_tokens_at(self.input@, old(self).pos as int) == spec_tokens_at(
                    self.input@,
                    self.pos as int,
                ),
            decreases n - self.pos,
        {
            self.pos = self.pos + 1;
        }
        if self.pos == n {
            return Token::Eof;
        }
        let ghost here = self.pos as int;
        let c = self.input.get_char(self.pos);
        if is_digit(c) {
            let start = self.pos;
            self.pos = self.pos + 1;
            while self.pos < n && is_number_char(self.input.get_char(self.pos))
                invariant
                    self.input == old(self).input,
                    n as nat == self.input@.len(),
                    start < self.pos <= n,
                    forall|k: int|
                        start + 1 <= k < self.pos ==> spec_is_number_char(self.input@[k]),
                decreases n - self.pos,
            {
                self.pos = self.pos + 1;
            }
            proof {
                lemma_num_end_is(self.input@, here + 1, self.pos as int);
            }
            let lit = String::from_str(self.input.substring_char(start, self.pos));
            return Token::Number(lit);
        }
        self.pos = self.pos + 1;
        match c {
            '+' => Token::Plus,
            '-' => Token::Minus,
            '*' => Token::Multiply,
            '/' => Token::Divide,
            '(' => Token::LParen,
            ')' => Token::RParen,
            _ => Token::Eof,
        }
    }
}

} // verus!
