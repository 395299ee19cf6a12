//! The lexer: bytes to tokens, with the current lexeme kept as bytes.
use vstd::prelude::*;
use crate::operators::{
    double_op, is_double_operator, is_single_operator, is_triple_operator, single_op, triple_op,
};
use crate::token::Token;

verus! {

/// ASCII whitespace: space, tab, newline, form feed, carriage return.
pub open spec fn is_ws(c: u8) -> bool {
    c == 32 || c == 9 || c == 10 || c == 12 || c == 13
}

/// An ASCII digit.
pub open spec fn is_digit(c: u8) -> bool {
    48 <= c <= 57
}

/// An ASCII letter or digit.
pub open spec fn is_alnum(c: u8) -> bool {
    is_digit(c) || (65 <= c <= 90) || (97 <= c <= 122)
}

/// A byte that may continue an identifier.
pub open spec fn ident_char(c: u8) -> bool {
    is_alnum(c) || c == 95 || c == 46
}

/// Where the whitespace starting at `i` ends.
pub open spec fn skip_ws(s: Seq<u8>, i: int) -> int
    decreases s.len() - i,
{
    if 0 <= i < s.len() && is_ws(s[i]) {
        skip_ws(s, i + 1)
    } else {
        i
    }
}

/// Where the identifier bytes starting at `i` end.
pub open spec fn ident_end(s: Seq<u8>, i: int) -> int
    decreases s.len() - i,
{
    if 0 <= i < s.len() && ident_char(s[i]) {
        ident_end(s, i + 1)
    } else {
        i
    }
}

/// Where a number continued at `i` ends, and whether it holds a dot: digits,
/// and at most one dot, which must be followed by a digit.
pub open spec fn number_end(s: Seq<u8>, i: int, dot: bool) -> (int, bool)
    decreases s.len() - i,
{
    if 0 <= i < s.len() && is_digit(s[i]) {
        number_end(s, i + 1, dot)
    } else if 0 <= i && i + 1 < s.len() && s[i] == 46 && !dot && is_digit(s[i + 1]) {
        number_end(s, i + 1, true)
    } else {
        (i, dot)
    }
}

/// The length of the operator starting at `i`: maximal munch up to three bytes.
pub open spec fn operator_len(s: Seq<u8>, i: int) -> int {
    if i + 1 < s.len() && double_op(s[i], s[i + 1]) {
        if i + 2 < s.len() && triple_op(s[i], s[i + 1], s[i + 2]) {
            3
        } else {
            2
        }
    } else {
        1
    }
}

/// The token starting at `i` and where it ends, or `None` at the end of input.
pub open spec fn lex_at(s: Seq<u8>, i: int) -> Option<(Token, int)> {
    if i < 0 || i >= s.len() {
        None
    } else {
        let c = s[i];
        if is_digit(c) {
            let (e, dot) = number_end(s, i + 1, false);
            Some((if dot { Token::Real } else { Token::Integer }, e))
        } else if is_alnum(c) || c == 95 {
            Some((Token::Identifier, ident_end(s, i + 1)))
        } else if single_op(c) {
            Some((Token::Operator, i + operator_len(s, i)))
        } else {
            Some((Token::Unknown, i + 1))
        }
    }
}

proof fn lemma_number_end_bounds(s: Seq<u8>, i: int, dot: bool)
    requires
        0 <= i <= s.len(),
    ensures
        i <= number_end(s, i, dot).0 <= s.len(),
    decreases s.len() - i,
{
    if i < s.len() && is_digit(s[i]) {
        lemma_number_end_bounds(s, i + 1, dot);
    } else if i < s.len() && s[i] == 46 && !dot {
        lemma_number_end_bounds(s, i + 1, true);
    }
}

proof fn lemma_ident_end_bounds(s: Seq<u8>, i: int)
    requires
        0 <= i <= s.len(),
    ensures
        i <= ident_end(s, i) <= s.len(),
    decreases s.len() - i,
{
    if i < s.len() && ident_char(s[i]) {
        lemma_ident_end_bounds(s, i + 1);
    }
}

/// A token read at `i` ends after `i` and within the input.
pub proof fn lemma_lex_advances(s: Seq<u8>, i: int)
    requires
        0 <= i <= s.len(),
    ensures
        lex_at(s, i) is None ==> i >= s.len(),
        lex_at(s, i) is Some ==> i < (lex_at(s, i)->0).1 <= s.len(),
{
    if i < s.len() {
        let c = s[i];
        if is_digit(c) {
            lemma_number_end_bounds(s, i + 1, false);
        } else if is_alnum(c) || c == 95 {
            lemma_ident_end_bounds(s, i + 1);
        }
    }
}

/// Skipping whitespace stays within the input.
pub proof fn lemma_skip_ws_bounds(s: Seq<u8>, i: int)
    requires
        0 <= i <= s.len(),
    ensures
        i <= skip_ws(s, i) <= s.len(),
    decreases s.len() - i,
{
    if i < s.len() && is_ws(s[i]) {
        lemma_skip_ws_bounds(s, i + 1);
    }
}

/// Reads tokens from a byte string.
pub struct Lexer {
    input: Vec<u8>,
    offset: usize,
    buffer: Vec<u8>,
}

impl Lexer {
    /// The input.
    pub closed spec fn input(&self) -> Seq<u8> {
        self.input@
    }

    /// The position of the next unread byte.
    pub closed spec fn pos(&self) -> int {
        self.offset as int
    }

    /// The current lexeme.
    pub closed spec fn lexeme(&self) -> Seq<u8> {
        self.buffer@
    }

    /// The position lies within the input.
    pub open spec fn wf(&self) -> bool {
        0 <= self.pos() <= self.input().len()
    }

    /// A lexer at the start of the input.
    pub fn from(input: Vec<u8>) -> (r: Self)
        ensures
            r.wf(),
            r.input() == input@,
            r.pos() == 0,
            r.lexeme().len() == 0,
    {
        Lexer { input, offset: 0, buffer: Vec::new() }
    }

    /// The next unread byte, if any.
    fn current(&self) -> (r: Option<u8>)
        requires
            self.wf(),
        ensures
            self.pos() < self.input().len() ==> r == Some(self.input()[self.pos()]),
            self.pos() >= self.input().len() ==> r is None,
    {
        if self.offset < self.input.len() {
            Some(self.input[self.offset])
        } else {
            None
        }
    }

    /// Reads one byte.
    fn next(&mut self) -> (r: Option<u8>)
        requires
            old(self).wf(),
        ensures
            final(self).wf(),
            final(self).input() == old(self).input(),
            final(self).lexeme() == old(self).lexeme(),
            old(self).pos() < old(self).input().len() ==> r == Some(
                old(self).input()[old(self).pos()],
            ) && final(self).pos() == old(self).pos() + 1,
            old(self).pos() >= old(self).input().len() ==> r is None && final(self).pos() == old(self).pos(),
    {
        if self.offset < self.input.len() {
            let c = self.input[self.offset];
            self.offset = self.offset + 1;
            Some(c)
        } else {
            None
        }
    }

    /// Skips whitespace.
    pub fn skip_whitespaces(&mut self)
        requires
            old(self).wf(),
        ensures
            final(self).wf(),
            final(self).input() == old(self).input(),
            final(self).lexeme() == old(self).lexeme(),
            final(self).pos() == skip_ws(old(self).input(), old(self).pos()),
    {
        while self.offset < self.input.len() && is_space(self.input[self.offset])
            invariant
                self.wf(),
                self.input() == old(self).input(),
                self.lexeme() == old(self).lexeme(),
                skip_ws(self.input(), self.pos()) == skip_ws(old(self).input(), old(self).pos()),
            decreases self.input().len() - self.pos(),
        {
            self.offset = self.offset + 1;
        }
    }

    /// Reads the rest of a number whose first digit is `c`.
    fn number(&mut self, c: u8) -> (r: Token)
        requires
            old(self).wf(),
        ensures
            final(self).wf(),
            final(self).input() == old(self).input(),
            ({
                let (e, dot) = number_end(old(self).input(), old(self).pos(), false);
                &&& final(self).pos() == e
                &&& r == if dot { Token::Real } else { Token::Integer }
                &&& final(self).lexeme() == seq![c] + old(self).input().subrange(old(self).pos(), e)
            }),
    {
        let ghost s = self.input@;
        let ghost p0 = self.offset as int;
        let mut has_dot = false;
        self.buffer = Vec::new();
        self.buffer.push(c);
        let mut go = true;
        while go && self.offset < self.input.len()
            invariant
                self.wf(),
                self.input() == s,
                self.input@ == s,
                0 <= p0 <= self.offset <= s.len(),
                p0 <= self.pos(),
                number_end(s, p0, false) == number_end(s, self.pos(), has_dot),
                self.lexeme() == seq![c] + s.subrange(p0, self.pos()),
                !go ==> number_end(s, self.pos(), has_dot) == (self.pos(), has_dot),
            decreases s.len() - self.pos() + if go { 1int } else { 0int },
        {
            let d = self.input[self.offset];
            let next_digit = self.offset + 1 < self.input.len() && 48u8 <= self.input[self.offset
                + 1] && self.input[self.offset + 1] <= 57u8;
            if (48u8 <= d && d <= 57u8) || (d == 46u8 && !has_dot && next_digit) {
                if d == 46u8 {
                    has_dot = true;
                }
                let ghost before = self.buffer@;
                let ghost at = self.offset as int;
                assert(d == s[at]);
                self.buffer.push(d);
                self.offset = self.offset + 1;
                assert(self.buffer@ == before.push(d));
                assert(s.subrange(p0, at + 1) =~= s.subrange(p0, at).push(d));
                assert(self.lexeme() =~= seq![c] + s.subrange(p0, self.pos()));
            } else {
                go = false;
            }
        }
        assert(number_end(s, self.pos(), has_dot) == (self.pos(), has_dot));
        if has_dot {
            Token::Real
        } else {
            Token::Integer
        }
    }

    /// Reads the rest of an identifier whose first byte is `c`.
    fn identifier(&mut self, c: u8) -> (r: Token)
        requires
            old(self).wf(),
        ensures
            final(self).wf(),
            final(self).input() == old(self).input(),
            r == Token::Identifier,
            final(self).pos() == ident_end(old(self).input(), old(self).pos()),
            final(self).lexeme() == seq![c] + old(self).input().subrange(
                old(self).pos(),
                final(self).pos(),
            ),
    {
        let ghost s = self.input@;
        let ghost p0 = self.offset as int;
        self.buffer = Vec::new();
        self.buffer.push(c);
        while self.offset < self.input.len() && is_ident_char(self.input[self.offset])
            invariant
                self.wf(),
                self.input() == s,
                self.input@ == s,
                0 <= p0 <= self.offset <= s.len(),
                p0 <= self.pos(),
                ident_end(s, p0) == ident_end(s, self.pos()),
                self.lexeme() == seq![c] + s.subrange(p0, self.pos()),
            decreases s.len() - self.pos(),
        {
            let d = self.input[self.offset];
            let ghost before = self.buffer@;
            let ghost at = self.offset as int;
            assert(d == s[at]);
            self.buffer.push(d);
            self.offset = self.offset + 1;
            assert(self.buffer@ == before.push(d));
            assert(s.subrange(p0, at + 1) =~= s.subrange(p0, at).push(d));
            assert(self.lexeme() =~= seq![c] + s.subrange(p0, self.pos()));
        }
        Token::Identifier
    }

    /// Reads the rest of an operator whose first byte is `c0`, by maximal
    /// munch up to three bytes.
    fn operator(&mut self, c0: u8) -> (r: Token)
        requires
            old(self).wf(),
            old(self).pos() >= 1,
            old(self).input()[old(self).pos() - 1] == c0,
        ensures
            final(self).wf(),
            final(self).input() == old(self).input(),
            r == Token::Operator,
            final(self).pos() == old(self).pos() - 1 + operator_len(
                old(self).input(),
                old(self).pos() - 1,
            ),
            final(self).lexeme() == old(self).input().subrange(
                old(self).pos() - 1,
                final(self).pos(),
            ),
    {
        let ghost s = self.input@;
        let ghost p = self.offset as int;
        let n = self.input.len();
        self.buffer = Vec::new();
        self.buffer.push(c0);
        if let Some(c1) = self.current() {
            if is_double_operator(c0, c1) {
                self.buffer.push(c1);
                self.offset = self.offset + 1;
                if let Some(c2) = self.current() {
                    if is_triple_operator(c0, c1, c2) {
                        self.offset = self.offset + 1;
                        self.buffer.push(c2);
                    }
                }
            }
        }
        assert(self.lexeme() =~= s.subrange(p - 1, self.pos()));
        Token::Operator
    }

    /// Reads the token at the position, after any whitespace has been
    /// skipped; `None` at the end of input.
    pub fn lex(&mut self) -> (r: Option<Token>)
        requires
            old(self).wf(),
        ensures
            final(self).wf(),
            final(self).input() == old(self).input(),
            match lex_at(old(self).input(), old(self).pos()) {
                None => r is None && final(self).pos() == old(self).pos() && final(self).lexeme()
                    == old(self).lexeme(),
                Some((t, e)) => r == Some(t) && final(self).pos() == e && final(self).lexeme()
                    == old(self).input().subrange(old(self).pos(), e),
            },
    {
        let ghost s = self.input@;
        let ghost p = self.offset as int;
        let c = match self.next() {
            Some(c) => c,
            None => {
                return None;
            },
        };
        if 48u8 <= c && c <= 57u8 {
            proof {
                lemma_number_end_bounds(s, p + 1, false);
            }
            let t = self.number(c);
            assert(self.lexeme() =~= s.subrange(p, self.pos()));
            Some(t)
        } else if is_alnum_byte(c) || c == 95u8 {
            proof {
                lemma_ident_end_bounds(s, p + 1);
            }
            let t = self.identifier(c);
            assert(self.lexeme() =~= s.subrange(p, self.pos()));
            Some(t)
        } else if is_single_operator(c) {
            Some(self.operator(c))
        } else {
            self.buffer = Vec::new();
            self.buffer.push(c);
            assert(self.lexeme() =~= s.subrange(p, p + 1));
            Some(Token::Unknown)
        }
    }

    /// The number of bytes read so far.
    pub fn offset(&self) -> (r: usize)
        ensures
            r == self.pos(),
    {
        self.offset
    }

    /// The current lexeme.
    pub fn buffer(&self) -> (r: &[u8])
        ensures
            r@ == self.lexeme(),
    {
        self.buffer.as_slice()
    }
}

/// Whether a byte is ASCII whitespace.
pub fn is_space(c: u8) -> (r: bool)
    ensures
        r == is_ws(c),
{
    c == 32u8 || c == 9u8 || c == 10u8 || c == 12u8 || c == 13u8
}

/// Whether a byte is an ASCII letter or digit.
pub fn is_alnum_byte(c: u8) -> (r: bool)
    ensures
        r == is_alnum(c),
{
    (48u8 <= c && c <= 57u8) || (65u8 <= c && c <= 90u8) || (97u8 <= c && c <= 122u8)
}

/// Whether a byte may continue an identifier.
pub fn is_ident_char(c: u8) -> (r: bool)
    ensures
        r == ident_char(c),
{
    is_alnum_byte(c) || c == 95u8 || c == 46u8
}

} // verus!
