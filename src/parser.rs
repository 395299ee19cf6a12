//! The parser: tokens to emitter calls, with precedence climbing for binary
//! operators, lowering of `if` to labels and jumps, and local scopes.
use vstd::prelude::*;
use crate::bytes::bytes_eq;
use crate::assembly_emitter::AssemblyEmitter;
use crate::assembler::decimal;
use crate::emit::{extends, Call, Emit};
use crate::emitter::Emitter;
use crate::module::Module;
use crate::error::Error;
use crate::lexer::Lexer;
use crate::table::has_key;
use crate::precedence;
use crate::scope::Function;
use crate::text::parse_decimal;
use crate::token::Token;

verus! {

/// Compiles source text into calls on an emitter.
pub struct Parser<E: Emit> {
    lexer: Lexer,
    token: Option<Token>,
    start: usize,
    end: usize,
    emitter: E,
    label_id: u64,
    functions: Vec<Function>,
    ctor: Option<u64>,
}

impl<E: Emit> Parser<E> {
    /// The lexer's position lies in its input, a function context exists,
    /// and the emitter is consistent.
    pub closed spec fn wf(&self) -> bool {
        &&& self.lexer.wf()
        &&& self.functions@.len() >= 1
        &&& forall|i: int| 0 <= i < self.functions@.len() ==> #[trigger] self.functions@[i].wf()
        &&& self.emitter.ready()
    }

    /// The calls made on the emitter so far.
    pub closed spec fn emitted(&self) -> Seq<Call> {
        self.emitter.calls()
    }

    /// Whether the entry code has been opened by a top-level expression.
    pub closed spec fn entry_open(&self) -> bool {
        self.ctor is Some
    }

    /// The token after the current one and where it ends, if any.
    pub closed spec fn upcoming(&self) -> Option<(Token, int)> {
        crate::lexer::lex_at(
            self.lexer.input(),
            crate::lexer::skip_ws(self.lexer.input(), self.lexer.pos()),
        )
    }

    /// Whether the token after the current one is the operator `(`.
    pub open spec fn call_follows(&self) -> bool {
        match self.upcoming() {
            Some((t, e)) => t == Token::Operator && self.upcoming_lexeme() == seq![40u8],
            None => false,
        }
    }

    /// The lexeme of the token after the current one.
    pub closed spec fn upcoming_lexeme(&self) -> Seq<u8> {
        match self.upcoming() {
            Some((t, e)) => self.lexer.input().subrange(
                crate::lexer::skip_ws(self.lexer.input(), self.lexer.pos()),
                e,
            ),
            None => seq![],
        }
    }

    /// The emitter being driven.
    pub closed spec fn target(&self) -> E {
        self.emitter
    }

    /// The next fresh numeric label id.
    pub closed spec fn next_label(&self) -> u64 {
        self.label_id
    }

    /// The lexeme of the current token.
    pub closed spec fn current_lexeme(&self) -> Seq<u8> {
        self.lexer.lexeme()
    }

    /// The source text.
    pub closed spec fn source(&self) -> Seq<u8> {
        self.lexer.input()
    }

    /// What is left to read, counting the current token as one.
    pub closed spec fn measure(&self) -> nat {
        ((self.lexer.input().len() - self.lexer.pos()) + if self.token is Some {
            1int
        } else {
            0int
        }) as nat
    }

    /// A parser at the start of the source, writing to `emitter`.
    pub fn new(source: Vec<u8>, emitter: E) -> (r: Self)
        requires
            emitter.ready(),
        ensures
            r.wf(),
            r.source() == source@,
            r.emitted() == emitter.calls(),
            !r.entry_open(),
            r.upcoming() == crate::lexer::lex_at(source@, crate::lexer::skip_ws(source@, 0)),
    {
        let mut functions: Vec<Function> = Vec::new();
        functions.push(Function::new());
        Parser {
            lexer: Lexer::from(source),
            token: None,
            start: 0,
            end: 0,
            emitter,
            label_id: 0,
            functions,
            ctor: None,
        }
    }

    /// Gives the emitter back.
    pub fn into_emitter(self) -> (r: E)
        requires
            self.wf(),
        ensures
            r.ready(),
            r.calls() == self.emitted(),
    {
        self.emitter
    }

    /// A fresh numeric label id.
    fn get_lable_id(&mut self) -> (r: Result<u64, Error>)
        requires
            old(self).wf(),
        ensures
            final(self).wf(),
            final(self).emitted() == old(self).emitted(),
            r is Ok ==> r->Ok_0 == old(self).next_label(),
            extends(old(self).emitted(), final(self).emitted()),
            final(self).source() == old(self).source(),
            final(self).measure() == old(self).measure(),
            final(self).token == old(self).token,
            final(self).lexer == old(self).lexer,
    {
        if self.label_id == u64::MAX {
            return Err(Error::ProgramTooLarge);
        }
        let result = self.label_id;
        self.label_id = self.label_id + 1;
        Ok(result)
    }

    /// Moves to the next token, recording its byte range.
    fn next(&mut self)
        requires
            old(self).wf(),
        ensures
            final(self).wf(),
            extends(old(self).emitted(), final(self).emitted()),
            final(self).source() == old(self).source(),
            final(self).measure() <= old(self).measure(),
            old(self).token is Some ==> final(self).measure() < old(self).measure(),
            final(self).emitter == old(self).emitter,
            final(self).functions == old(self).functions,
            final(self).token == match old(self).upcoming() {
                Some((t, e)) => Some(t),
                None => None::<Token>,
            },
            old(self).upcoming() is Some ==> final(self).current_lexeme() == old(self).upcoming_lexeme(),
            final(self).entry_open() == old(self).entry_open(),
    {
        self.lexer.skip_whitespaces();
        proof {
            crate::lexer::lemma_skip_ws_bounds(old(self).lexer.input(), old(self).lexer.pos());
        }
        let start = self.lexer.offset();
        let ghost p = self.lexer.pos();
        self.token = self.lexer.lex();
        proof {
            crate::lexer::lemma_lex_advances(self.lexer.input(), p);
        }
        let end = self.lexer.offset();
        self.start = start;
        self.end = end;
    }

    /// The precedence of the current token as a binary operator; 0 for any
    /// other token.
    fn precedence(&self) -> (r: u8)
        ensures
            r <= 11,
            self.token != Some(Token::Operator) ==> r == 0,
    {
        if self.token != Some(Token::Operator) {
            return 0;
        }
        let buf = self.lexer.buffer();
        if buf.len() == 1 {
            precedence::get((buf[0], 32u8, 32u8))
        } else if buf.len() == 2 {
            precedence::get((buf[0], buf[1], 32u8))
        } else if buf.len() == 3 {
            precedence::get((buf[0], buf[1], buf[2]))
        } else {
            0
        }
    }

    /// Whether the current token is of a kind.
    fn token_is(&self, token: Token) -> (r: bool)
        ensures
            r == (self.token == Some(token)),
    {
        match self.token {
            Some(t) => t == token,
            None => false,
        }
    }

    /// Whether the current token is of a kind and its lexeme is `s`.
    fn token_is_buf(&self, token: Token, s: &[u8]) -> (r: bool)
        ensures
            r == (self.token == Some(token) && self.current_lexeme() == s@),
    {
        self.token_is(token) && bytes_eq(self.lexer.buffer(), s)
    }

    /// Compiles an integer literal.
    fn integer(&mut self) -> (r: Result<(), Error>)
        requires
            old(self).wf(),
            old(self).token == Some(Token::Integer),
        ensures
            final(self).wf(),
            extends(old(self).emitted(), final(self).emitted()),
            final(self).source() == old(self).source(),
            r is Ok ==> final(self).measure() < old(self).measure(),
            final(self).measure() <= old(self).measure(),
            decimal(old(self).current_lexeme()) is None ==> r == Err::<(), Error>(
                Error::InvalidLiteral,
            ),
            r is Ok ==> decimal(old(self).current_lexeme()) is Some && final(self).emitted()
                == old(self).emitted().push(Call::Integer(decimal(old(self).current_lexeme())->0)),
    {
        let v = match parse_decimal(self.lexer.buffer()) {
            Some(v) => v,
            None => {
                return Err(Error::InvalidLiteral);
            },
        };
        self.emitter.integer(v)?;
        self.next();
        Ok(())
    }

    /// A real literal: recognised, but it has no instruction here.
    fn real_literal(&self) -> (r: Result<(), Error>)
        ensures
            r == Err::<(), Error>(Error::UnsupportedReal),
    {
        Err(Error::UnsupportedReal)
    }

    /// Compiles `( expr )`.
    fn paren(&mut self) -> (r: Result<(), Error>)
        requires
            old(self).wf(),
            old(self).token is Some,
        ensures
            final(self).wf(),
            extends(old(self).emitted(), final(self).emitted()),
            final(self).source() == old(self).source(),
            r is Ok ==> final(self).measure() < old(self).measure(),
            final(self).measure() <= old(self).measure(),
        decreases old(self).measure(), 2nat,
    {
        self.next();
        self.expression()?;
        if !self.token_is_buf(Token::Operator, &[41u8]) {
            return Err(Error::MissingDelimiter);
        }
        self.next();
        Ok(())
    }

    /// The slot of a local name in the current function, innermost block first.
    pub closed spec fn slot_of(&self, name: Seq<u8>) -> Option<u64> {
        crate::scope::find_slot(self.functions@.last().scopes(), name)
    }

    /// The slot of a local of the current function.
    fn find_variable(&self, name: &[u8]) -> (r: Option<u64>)
        requires
            self.wf(),
        ensures
            r == self.slot_of(name@),
    {
        let n = self.functions.len();
        assert(self.functions@[n - 1].wf());
        self.functions[n - 1].get(name)
    }

    /// Compiles a name: a local load or a symbol address, then a call if
    /// `(` follows.
    fn identifier(&mut self) -> (r: Result<(), Error>)
        requires
            old(self).wf(),
            old(self).token is Some,
        ensures
            final(self).wf(),
            extends(old(self).emitted(), final(self).emitted()),
            r is Ok ==> final(self).emitted().len() > old(self).emitted().len() && final(self).emitted()[old(self).emitted().len() as int] == match old(self).slot_of(
                old(self).current_lexeme(),
            ) {
                Some(i) => Call::Load(i),
                None => Call::Pointer(old(self).current_lexeme()),
            },
            final(self).source() == old(self).source(),
            r is Ok ==> final(self).measure() < old(self).measure(),
            final(self).measure() <= old(self).measure(),
            old(self).target().accepts(
                match old(self).slot_of(old(self).current_lexeme()) {
                    Some(i) => Call::Load(i),
                    None => Call::Pointer(old(self).current_lexeme()),
                },
            ) && !old(self).call_follows() ==> r is Ok && final(self).emitted() == old(self).emitted().push(
                match old(self).slot_of(old(self).current_lexeme()) {
                    Some(i) => Call::Load(i),
                    None => Call::Pointer(old(self).current_lexeme()),
                },
            ),
            r is Ok && old(self).call_follows() ==> final(self).emitted().len() > old(self).emitted().len() + 1 && final(self).emitted().last() is Call,
        decreases old(self).measure(), 2nat,
    {
        match self.find_variable(self.lexer.buffer()) {
            Some(index) => {
                self.emitter.load(index)?;
            },
            None => {
                let name = crate::bytes::to_vec(self.lexer.buffer());
                self.emitter.pointer(name.as_slice())?;
            },
        }
        assert(self.emitted().len() == old(self).emitted().len() + 1);
        let ghost first = self.emitted()[old(self).emitted().len() as int];
        assert(self.lexer == old(self).lexer);
        assert(self.upcoming() == old(self).upcoming());
        assert(self.upcoming_lexeme() == old(self).upcoming_lexeme());
        self.next();
        let open_paren: [u8; 1] = [40u8];
        assert(open_paren@ =~= seq![40u8]);
        if !self.token_is_buf(Token::Operator, &open_paren) {
            return Ok(());
        }
        assert(old(self).call_follows());
        self.next();
        let mut arguments: u32 = 0;
        loop
            invariant
                self.wf(),
                self.source() == old(self).source(),
                extends(old(self).emitted(), self.emitted()),
                self.measure() < old(self).measure(),
                arguments <= 256,
                old(self).call_follows(),
                self.emitted().len() > old(self).emitted().len(),
                self.emitted()[old(self).emitted().len() as int] == first,
            decreases self.measure(),
        {
            if self.token_is_buf(Token::Operator, &[41u8]) {
                break;
            }
            if arguments >= 255 {
                return Err(Error::TooManyArguments);
            }
            self.expression()?;
            arguments += 1;
        }
        self.next();
        self.emitter.call(arguments as u8)
    }

    /// Compiles one operand: a literal, a name, a call, a parenthesised
    /// expression, an `if` or a `let`.
    fn primary(&mut self) -> (r: Result<(), Error>)
        requires
            old(self).wf(),
        ensures
            final(self).wf(),
            extends(old(self).emitted(), final(self).emitted()),
            final(self).source() == old(self).source(),
            r is Ok ==> final(self).measure() < old(self).measure(),
            final(self).measure() <= old(self).measure(),
        decreases old(self).measure(), 3nat,
    {
        match self.token {
            Some(Token::Identifier) => {
                if bytes_eq(self.lexer.buffer(), &[105u8, 102u8]) {
                    self.p_if()
                } else if bytes_eq(self.lexer.buffer(), &[108u8, 101u8, 116u8]) {
                    self.p_let()
                } else {
                    self.identifier()
                }
            },
            Some(Token::Integer) => self.integer(),
            Some(Token::Real) => self.real_literal(),
            Some(Token::Operator) => {
                if bytes_eq(self.lexer.buffer(), &[40u8]) {
                    self.paren()
                } else {
                    Err(Error::UnexpectedToken)
                }
            },
            _ => Err(Error::UnexpectedToken),
        }
    }

    /// The current operator as a space-padded triple.
    fn operator_triple(&self) -> (r: [u8; 3]) {
        let buf = self.lexer.buffer();
        if buf.len() == 1 {
            [buf[0], 32u8, 32u8]
        } else if buf.len() == 2 {
            [buf[0], buf[1], 32u8]
        } else if buf.len() == 3 {
            [buf[0], buf[1], buf[2]]
        } else {
            [32u8, 32u8, 32u8]
        }
    }

    /// Precedence climbing: after an operand, compiles every following
    /// operator of precedence at least `min` with its right operand, the
    /// tighter operators on the right first.
    fn binary(&mut self, min: u8) -> (r: Result<(), Error>)
        requires
            old(self).wf(),
            min >= 1,
        ensures
            final(self).wf(),
            extends(old(self).emitted(), final(self).emitted()),
            final(self).source() == old(self).source(),
            final(self).measure() <= old(self).measure(),
        decreases old(self).measure(), 1nat,
    {
        loop
            invariant
                self.wf(),
                self.source() == old(self).source(),
                extends(old(self).emitted(), self.emitted()),
                self.measure() <= old(self).measure(),
                min >= 1,
            decreases self.measure(),
        {
            let p = self.precedence();
            if p < min {
                return Ok(());
            }
            let operator = self.operator_triple();
            self.next();
            self.primary()?;
            let q = self.precedence();
            if q > p {
                self.binary(p + 1)?;
            }
            self.emitter.binary(operator)?;
        }
    }

    /// Compiles expressions up to one of the `end` keywords, discarding the
    /// value of every expression but the last.
    fn block(&mut self, end: &[u8], end2: &[u8], end3: &[u8]) -> (r: Result<(), Error>)
        requires
            old(self).wf(),
        ensures
            final(self).wf(),
            extends(old(self).emitted(), final(self).emitted()),
            r is Ok ==> final(self).token == Some(Token::Identifier) && (final(self).current_lexeme()
                == end@ || final(self).current_lexeme() == end2@ || final(self).current_lexeme()
                == end3@),
            final(self).source() == old(self).source(),
            final(self).measure() <= old(self).measure(),
        decreases old(self).measure(), 5nat,
    {
        let mut first = true;
        loop
            invariant
                self.wf(),
                self.source() == old(self).source(),
                extends(old(self).emitted(), self.emitted()),
                self.measure() <= old(self).measure(),
            decreases self.measure(),
        {
            if self.token_is_buf(Token::Identifier, end) || self.token_is_buf(
                Token::Identifier,
                end2,
            ) || self.token_is_buf(Token::Identifier, end3) {
                return Ok(());
            }
            if first {
                first = false;
            } else {
                self.emitter.drop()?;
            }
            self.expression()?;
        }
    }

    /// Compiles an operand and the operators that follow it.
    fn expression(&mut self) -> (r: Result<(), Error>)
        requires
            old(self).wf(),
        ensures
            final(self).wf(),
            extends(old(self).emitted(), final(self).emitted()),
            final(self).source() == old(self).source(),
            r is Ok ==> final(self).measure() < old(self).measure(),
            final(self).measure() <= old(self).measure(),
        decreases old(self).measure(), 4nat,
    {
        self.primary()?;
        self.binary(1)
    }

    /// Enters a nested block of the current function.
    fn enter_block(&mut self)
        requires
            old(self).wf(),
        ensures
            final(self).wf(),
            extends(old(self).emitted(), final(self).emitted()),
            final(self).source() == old(self).source(),
            final(self).measure() == old(self).measure(),
    {
        let n = self.functions.len();
        assert(self.functions@[n - 1].wf());
        let ghost before = self.functions@;
        self.functions[n - 1].push();
        assert forall|i: int| 0 <= i < self.functions@.len() implies #[trigger] self.functions@[i].wf()
            by {
            if i < n - 1 {
                assert(self.functions@[i] == before[i]);
                assert(before[i].wf());
            }
        }
    }

    /// Leaves the innermost block of the current function.
    fn exit_block(&mut self)
        requires
            old(self).wf(),
        ensures
            final(self).wf(),
            extends(old(self).emitted(), final(self).emitted()),
            final(self).source() == old(self).source(),
            final(self).measure() == old(self).measure(),
    {
        let n = self.functions.len();
        assert(self.functions@[n - 1].wf());
        let ghost before = self.functions@;
        self.functions[n - 1].pop();
        assert forall|i: int| 0 <= i < self.functions@.len() implies #[trigger] self.functions@[i].wf()
            by {
            if i < n - 1 {
                assert(self.functions@[i] == before[i]);
                assert(before[i].wf());
            }
        }
    }

    /// Declares the current identifier in the innermost block; a name
    /// declared already in that block is an error.
    fn add_local(&mut self) -> (r: Result<u64, Error>)
        requires
            old(self).wf(),
        ensures
            final(self).wf(),
            final(self).emitted() == old(self).emitted(),
            extends(old(self).emitted(), final(self).emitted()),
            final(self).source() == old(self).source(),
            final(self).measure() == old(self).measure(),
            final(self).token == old(self).token,
    {
        let n = self.functions.len();
        assert(self.functions@[n - 1].wf());
        let ghost before = self.functions@;
        let name = crate::bytes::to_vec(self.lexer.buffer());
        let r = self.functions[n - 1].var(name.as_slice());
        assert forall|i: int| 0 <= i < self.functions@.len() implies #[trigger] self.functions@[i].wf()
            by {
            if i < n - 1 {
                assert(self.functions@[i] == before[i]);
                assert(before[i].wf());
            }
        }
        r
    }

    /// Compiles `let name = expr`: the value is stored and stays on the stack.
    fn p_let(&mut self) -> (r: Result<(), Error>)
        requires
            old(self).wf(),
            old(self).token is Some,
        ensures
            final(self).wf(),
            extends(old(self).emitted(), final(self).emitted()),
            final(self).source() == old(self).source(),
            r is Ok ==> final(self).measure() < old(self).measure(),
            final(self).measure() <= old(self).measure(),
            r is Ok ==> final(self).emitted().len() > 0 && final(self).emitted().last() is Store,
        decreases old(self).measure(), 2nat,
    {
        self.next();
        if !self.token_is(Token::Identifier) {
            return Err(Error::UnexpectedToken);
        }
        let local_id = self.add_local()?;
        self.next();
        if !self.token_is_buf(Token::Operator, &[61u8]) {
            return Err(Error::MissingDelimiter);
        }
        self.next();
        self.expression()?;
        self.emitter.store(local_id)
    }

    /// Whether the current token is the identifier `kw`.
    fn is_keyword(&self, kw: &[u8]) -> (r: bool)
        ensures
            r ==> self.token == Some(Token::Identifier),
    {
        self.token_is_buf(Token::Identifier, kw)
    }

    /// Compiles one arm body of an `if` in its own block.
    fn arm(&mut self, end: &[u8], end2: &[u8], end3: &[u8]) -> (r: Result<(), Error>)
        requires
            old(self).wf(),
        ensures
            final(self).wf(),
            extends(old(self).emitted(), final(self).emitted()),
            final(self).source() == old(self).source(),
            final(self).measure() <= old(self).measure(),
        decreases old(self).measure(), 6nat,
    {
        self.enter_block();
        self.block(end, end2, end3)?;
        self.exit_block();
        Ok(())
    }

    /// Compiles `if c block {elif c block} [else block] end`: each condition
    /// jumps past its arm when false, each arm jumps to the end; without
    /// `else` the value is void.
    fn p_if(&mut self) -> (r: Result<(), Error>)
        requires
            old(self).wf(),
            old(self).token is Some,
        ensures
            final(self).wf(),
            extends(old(self).emitted(), final(self).emitted()),
            r is Ok ==> final(self).emitted().len() > 0 && final(self).emitted().last()
                == Call::Label(old(self).next_label()),
            final(self).source() == old(self).source(),
            r is Ok ==> final(self).measure() < old(self).measure(),
            final(self).measure() <= old(self).measure(),
        decreases old(self).measure(), 2nat,
    {
        let end_if = self.get_lable_id()?;
        assert(end_if == old(self).next_label());
        self.next();
        self.expression()?;
        let mut next_id = self.get_lable_id()?;
        self.emitter.jump_false(next_id)?;
        self.arm(&[101u8, 110u8, 100u8], &[101u8, 108u8, 115u8, 101u8], &[101u8, 108u8, 105u8, 102u8])?;
        loop
            invariant
                end_if == old(self).next_label(),
                self.wf(),
                self.source() == old(self).source(),
                extends(old(self).emitted(), self.emitted()),
                self.measure() < old(self).measure(),
            decreases self.measure(),
        {
            if self.is_keyword(&[101u8, 110u8, 100u8]) {
                self.emitter.jump(end_if)?;
                self.emitter.label(next_id)?;
                self.emitter.void()?;
                self.emitter.label(end_if)?;
                self.next();
                return Ok(());
            } else if self.is_keyword(&[101u8, 108u8, 105u8, 102u8]) {
                self.emitter.jump(end_if)?;
                self.emitter.label(next_id)?;
                self.next();
                self.expression()?;
                next_id = self.get_lable_id()?;
                self.emitter.jump_false(next_id)?;
                self.arm(&[101u8, 110u8, 100u8], &[101u8, 108u8, 115u8, 101u8], &[101u8, 108u8, 105u8, 102u8])?;
            } else if self.is_keyword(&[101u8, 108u8, 115u8, 101u8]) {
                self.emitter.jump(end_if)?;
                self.emitter.label(next_id)?;
                self.next();
                self.arm(&[101u8, 110u8, 100u8], &[101u8, 110u8, 100u8], &[101u8, 110u8, 100u8])?;
                if !self.is_keyword(&[101u8, 110u8, 100u8]) {
                    return Err(Error::MissingDelimiter);
                }
                self.emitter.label(end_if)?;
                self.next();
                return Ok(());
            } else {
                return Err(Error::MissingDelimiter);
            }
        }
    }

    /// Compiles `fn name(args) block end`: a named label, the prologue, the
    /// body, `RET`, then the stack growth written into the prologue.
    fn function(&mut self) -> (r: Result<(), Error>)
        requires
            old(self).wf(),
            old(self).token is Some,
        ensures
            final(self).wf(),
            extends(old(self).emitted(), final(self).emitted()),
            r is Ok ==> ({
                let e = final(self).emitted();
                let n = old(self).emitted().len() as int;
                &&& e.len() >= n + 4
                &&& e[n] is LabelNamed
                &&& e[n + 1] is Function
                &&& e[e.len() - 2] == Call::Ret
                &&& e[e.len() - 1] is FinishFunction
            }),
            final(self).source() == old(self).source(),
            r is Ok ==> final(self).measure() < old(self).measure(),
            final(self).measure() <= old(self).measure(),
    {
        self.next();
        if !self.token_is(Token::Identifier) {
            return Err(Error::UnexpectedToken);
        }
        let name = crate::bytes::to_vec(self.lexer.buffer());
        self.emitter.label_named(name.as_slice())?;
        let ghost after_label = self.emitted();
        self.next();
        if !self.token_is_buf(Token::Operator, &[40u8]) {
            return Err(Error::MissingDelimiter);
        }
        self.next();
        self.functions.push(Function::new());
        let mut args_count: u32 = 0;
        while self.token_is(Token::Identifier)
            invariant
                self.wf(),
                self.source() == old(self).source(),
                extends(old(self).emitted(), self.emitted()),
                self.measure() < old(self).measure(),
                args_count <= 255,
                self.emitted() == after_label,
            decreases self.measure(),
        {
            if args_count >= 255 {
                return Err(Error::TooManyArguments);
            }
            self.add_local()?;
            self.next();
            args_count += 1;
        }
        if !self.token_is_buf(Token::Operator, &[41u8]) {
            return Err(Error::MissingDelimiter);
        }
        self.next();
        let cursor = self.emitter.function(args_count as u8)?;
        let ghost n = old(self).emitted().len() as int;
        let ghost head = self.emitted();
        assert(head.len() == n + 2 && head[n] is LabelNamed && head[n + 1] is Function);
        self.block(&[101u8, 110u8, 100u8], &[101u8, 110u8, 100u8], &[101u8, 110u8, 100u8])?;
        if !self.is_keyword(&[101u8, 110u8, 100u8]) {
            return Err(Error::MissingDelimiter);
        }
        self.next();
        self.emitter.ret()?;
        assert(extends(head, self.emitted()));
        let n = self.functions.len();
        let growth = if n > 1 {
            let f = self.functions.pop().unwrap();
            let used = f.max_slot_count();
            if used < args_count as u64 || used - (args_count as u64) > u32::MAX as u64 {
                return Err(Error::ProgramTooLarge);
            }
            (used - args_count as u64) as u32
        } else {
            0
        };
        self.emitter.finish_function(cursor, growth)
    }

    /// Compiles one top-level expression into the `__ctor__` entry code,
    /// opening it with its label and prologue on the first one and
    /// discarding the previous value on the others.
    fn global_code(&mut self) -> (r: Result<(), Error>)
        requires
            old(self).wf(),
        ensures
            final(self).wf(),
            extends(old(self).emitted(), final(self).emitted()),
            r is Ok ==> final(self).emitted().len() > old(self).emitted().len() && final(self).emitted()[old(self).emitted().len() as int] == if old(self).entry_open() {
                Call::Drop
            } else {
                Call::LabelNamed(seq![95u8, 95u8, 99u8, 116u8, 111u8, 114u8, 95u8, 95u8])
            },
            final(self).source() == old(self).source(),
            r is Ok ==> final(self).measure() < old(self).measure(),
            final(self).measure() <= old(self).measure(),
    {
        let ctor_name: [u8; 8] = [95u8, 95u8, 99u8, 116u8, 111u8, 114u8, 95u8, 95u8];
        assert(ctor_name@ =~= seq![95u8, 95u8, 99u8, 116u8, 111u8, 114u8, 95u8, 95u8]);
        match self.ctor {
            None => {
                self.emitter.label_named(&ctor_name)?;
                let cursor = self.emitter.function(0)?;
                self.ctor = Some(cursor);
            },
            Some(_) => {
                self.emitter.drop()?;
            },
        }
        self.expression()
    }

    /// Compiles the whole source: functions and top-level code, the latter
    /// gathered under `__ctor__` and closed with `RET`.
    pub fn parse(&mut self) -> (r: Result<(), Error>)
        requires
            old(self).wf(),
        ensures
            final(self).wf(),
            extends(old(self).emitted(), final(self).emitted()),
            final(self).source() == old(self).source(),
            r is Ok ==> final(self).finished(),
            old(self).upcoming() is None && !old(self).entry_open() ==> r is Ok && final(self).emitted() == old(self).emitted(),
    {
        self.next();
        loop
            invariant
                self.wf(),
                self.source() == old(self).source(),
                extends(old(self).emitted(), self.emitted()),
                old(self).upcoming() is None && !old(self).entry_open() ==> self.token is None
                    && self.emitted() == old(self).emitted() && !self.entry_open(),
            ensures
                self.wf(),
                self.source() == old(self).source(),
                extends(old(self).emitted(), self.emitted()),
                self.token is None,
                old(self).upcoming() is None && !old(self).entry_open() ==> self.emitted()
                    == old(self).emitted() && !self.entry_open(),
            decreases self.measure(),
        {
            if self.token.is_none() {
                break;
            }
            if self.is_keyword(&[102u8, 110u8]) {
                if self.ctor.is_some() {
                    let skip = self.get_lable_id()?;
                    self.emitter.jump(skip)?;
                    self.function()?;
                    self.emitter.label(skip)?;
                } else {
                    self.function()?;
                }
            } else {
                self.global_code()?;
            }
        }
        match self.ctor {
            Some(cursor) => {
                self.emitter.ret()?;
                let used = self.functions[0].max_slot_count();
                if used > u32::MAX as u64 {
                    return Err(Error::ProgramTooLarge);
                }
                self.emitter.finish_function(cursor, used as u32)
            },
            None => Ok(()),
        }
    }

    /// Where the current token starts and ends in the source.
    pub closed spec fn token_range(&self) -> (usize, usize) {
        (self.start, self.end)
    }

    /// Every token has been read.
    pub closed spec fn finished(&self) -> bool {
        self.token is None
    }

    /// The byte range of the current token.
    pub fn range(&self) -> (r: (usize, usize))
        ensures
            r == self.token_range(),
    {
        (self.start, self.end)
    }
}

/// Compiles source text with an emitter and gives the emitter back.
pub fn parse<E: Emit>(source: &[u8], emitter: E) -> (r: Result<E, Error>)
    requires
        emitter.ready(),
    ensures
        r is Ok ==> r->Ok_0.ready() && extends(emitter.calls(), r->Ok_0.calls()),
        crate::lexer::skip_ws(source@, 0) >= source@.len() ==> r is Ok && r->Ok_0.calls()
            == emitter.calls(),
{
    let mut parser = Parser::new(crate::bytes::to_vec(source), emitter);
    parser.parse()?;
    Ok(parser.into_emitter())
}

/// Compiles source text into a resolved module: every link it keeps names a
/// symbol that it does not define.
pub fn compile(source: &[u8]) -> (r: Result<Module, Error>)
    ensures
        crate::lexer::skip_ws(source@, 0) >= source@.len() ==> r is Ok,
        r is Ok ==> r->Ok_0.wf(),
        r is Ok ==> forall|x: Seq<u8>|
            has_key(r->Ok_0@.links, x) ==> !has_key(r->Ok_0@.labels, x),
{
    let mut emitter = parse(source, Emitter::new())?;
    emitter.resolve()?;
    Ok(emitter.into_module())
}

/// Compiles source text into its assembly listing.
pub fn compile_to_assembly(source: &[u8]) -> (r: Result<Vec<u8>, Error>)
    ensures
        crate::lexer::skip_ws(source@, 0) >= source@.len() ==> r is Ok,
{
    let emitter = parse(source, AssemblyEmitter::new())?;
    Ok(emitter.text())
}

} // verus!
