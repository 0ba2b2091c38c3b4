//! The scanner: a cursor over the input that hands out one token per call.
use vstd::prelude::*;
use crate::grammar::{scan, scan_at, lemma_scan_at, Lexed, Scan};
use crate::token::{
    line_col, lemma_line_col_bounds, token_is, CommonTokenFactory, Token, TokenKind,
};

verus! {

/// Why a scan stopped.
#[derive(PartialEq, Eq, Structural, Clone, Copy, Debug)]
pub enum LexError {
    /// The character at `offset` starts no token.
    UnrecognizedCharacter { offset: usize, line: usize, column: usize },
    /// The escape marker at `start_offset` opens a string that is never closed.
    UnterminatedString { start_offset: usize },
    /// A token was asked for after the end of input had been reported.
    ExhaustedInput,
}

/// The error that a failed scan at `pos` of `s` reports.
pub open spec fn error_at(s: Seq<char>, pos: int, l: Lexed) -> LexError {
    match l {
        Lexed::Unterminated => LexError::UnterminatedString { start_offset: pos as usize },
        _ => LexError::UnrecognizedCharacter {
            offset: pos as usize,
            line: line_col(s, pos).0 as usize,
            column: line_col(s, pos).1 as usize,
        },
    }
}

/// The actions that the grammar attaches to its rules: it attaches none.
#[derive(Clone, Copy, Debug)]
pub struct AntlrFcLexerActions {}

/// The scanner over one input text.
pub struct AntlrFcLexer {
    input: Vec<char>,
    pos: usize,
    line: usize,
    column: usize,
    done: bool,
    factory: CommonTokenFactory,
    actions: AntlrFcLexerActions,
}

impl AntlrFcLexer {
    /// The text being scanned.
    pub closed spec fn input(&self) -> Seq<char> {
        self.input@
    }

    /// The offset of the cursor.
    pub closed spec fn pos(&self) -> int {
        self.pos as int
    }

    /// Whether the end of input has been reported.
    pub closed spec fn done(&self) -> bool {
        self.done
    }

    pub closed spec fn wf(&self) -> bool {
        &&& self.pos <= self.input@.len() < usize::MAX
        &&& (self.line as int, self.column as int) == line_col(self.input@, self.pos as int)
    }

    /// A scanner at the start of `input` whose tokens `tf` makes.
    pub fn new_with_token_factory(input: Vec<char>, tf: &CommonTokenFactory) -> (r: AntlrFcLexer)
        requires
            input@.len() < usize::MAX,
        ensures
            r.wf(),
            r.input() == input@,
            r.pos() == 0,
            !r.done(),
    {
        AntlrFcLexer {
            input,
            pos: 0,
            line: 1,
            column: 0,
            done: false,
            factory: *tf,
            actions: AntlrFcLexerActions {  },
        }
    }

    /// A scanner at the start of `input`.
    pub fn new(input: Vec<char>) -> (r: AntlrFcLexer)
        requires
            input@.len() < usize::MAX,
        ensures
            r.wf(),
            r.input() == input@,
            r.pos() == 0,
            !r.done(),
    {
        AntlrFcLexer::new_with_token_factory(input, &CommonTokenFactory::new())
    }

    /// The line of the cursor, from 1.
    pub fn get_line(&self) -> (r: usize)
        requires
            self.wf(),
        ensures
            r == line_col(self.input(), self.pos()).0,
    {
        self.line
    }

    /// The column of the cursor, from 0.
    pub fn get_char_position_in_line(&self) -> (r: usize)
        requires
            self.wf(),
        ensures
            r == line_col(self.input(), self.pos()).1,
    {
        self.column
    }

    /// The offset of the cursor.
    pub fn get_offset(&self) -> (r: usize)
        requires
            self.wf(),
        ensures
            r == self.pos(),
    {
        self.pos
    }

    /// Moves the cursor to `e`, keeping line and column in step.
    fn advance_to(&mut self, e: usize)
        requires
            old(self).wf(),
            old(self).pos <= e <= old(self).input@.len(),
        ensures
            final(self).wf(),
            final(self).pos == e,
            final(self).input@ == old(self).input@,
            final(self).done == old(self).done,
    {
        while self.pos < e
            invariant
                self.wf(),
                self.pos <= e <= self.input@.len(),
                self.input@ == old(self).input@,
                self.done == old(self).done,
            decreases e - self.pos,
        {
            proof {
                lemma_line_col_bounds(self.input@, self.pos as int);
            }
            if self.input[self.pos] == '\n' {
                self.line = self.line + 1;
                self.column = 0;
            } else {
                self.column = self.column + 1;
            }
            self.pos = self.pos + 1;
        }
    }

    /// The next token, or the end-of-input token once the input is used up.
    /// A failed scan leaves the cursor where it was; after the end of input
    /// has been reported every further call fails with `ExhaustedInput`.
    pub fn next_token(&mut self) -> (r: Result<Token, LexError>)
        requires
            old(self).wf(),
        ensures
            final(self).wf(),
            final(self).input() == old(self).input(),
            old(self).done() ==> r == Err::<Token, LexError>(LexError::ExhaustedInput)
                && final(self).pos() == old(self).pos() && final(self).done(),
            !old(self).done() && old(self).pos() == old(self).input().len() ==> (r matches Ok(t)
                && token_is(t, old(self).input(), TokenKind::EndOfInput, old(self).pos(), old(self).pos())
                && final(self).pos() == old(self).pos() && final(self).done()),
            !old(self).done() && old(self).pos() < old(self).input().len() ==> match scan_at(
                old(self).input(),
                old(self).pos(),
            ) {
                Lexed::Token(k, e) => (r matches Ok(t) && token_is(t, old(self).input(), k, old(self).pos(), e)
                    && final(self).pos() == e && !final(self).done()),
                l => r == Err::<Token, LexError>(error_at(old(self).input(), old(self).pos(), l))
                    && final(self).pos() == old(self).pos() && !final(self).done(),
            },
    {
        if self.done {
            return Err(LexError::ExhaustedInput);
        }
        let start = self.pos;
        let n = self.input.len();
        if start == n {
            self.done = true;
            let t = self.factory.create(
                &self.input,
                TokenKind::EndOfInput,
                start,
                start,
                self.line,
                self.column,
            );
            return Ok(t);
        }
        proof {
            lemma_scan_at(self.input@, start as int);
        }
        match scan(&self.input, start) {
            Scan::Token(k, e) => {
                let t = self.factory.create(&self.input, k, start, e, self.line, self.column);
                self.advance_to(e);
                Ok(t)
            },
            Scan::Unrecognized => Err(
                LexError::UnrecognizedCharacter {
                    offset: start,
                    line: self.line,
                    column: self.column,
                },
            ),
            Scan::Unterminated => Err(LexError::UnterminatedString { start_offset: start }),
        }
    }
}

/// The outcome of scanning from one position to the end: the tokens in
/// order, as (kind, start, end), and where and why the scan stopped early,
/// if it did.
pub struct LexRun {
    pub tokens: Seq<(TokenKind, int, int)>,
    pub failure: Option<(int, Lexed)>,
}

/// Scanning `s` from `i` to the end, one rule application after another.
pub open spec fn lex_from(s: Seq<char>, i: int) -> LexRun
    decreases s.len() - i,
{
    if i < 0 || i >= s.len() {
        LexRun { tokens: seq![], failure: None }
    } else {
        match scan_at(s, i) {
            Lexed::Token(k, e) => if i < e <= s.len() {
                let rest = lex_from(s, e);
                LexRun { tokens: seq![(k, i, e)] + rest.tokens, failure: rest.failure }
            } else {
                LexRun { tokens: seq![], failure: None }
            },
            l => LexRun { tokens: seq![], failure: Some((i, l)) },
        }
    }
}

/// Every token of `input` in order, ending with the end-of-input token; or
/// the error at which scanning stopped.
pub fn tokenize(input: Vec<char>) -> (r: Result<Vec<Token>, LexError>)
    requires
        input@.len() < usize::MAX,
    ensures
        match r {
            Ok(v) => {
                let run = lex_from(input@, 0);
                &&& run.failure is None
                &&& v@.len() == run.tokens.len() + 1
                &&& forall|j: int|
                    0 <= j < run.tokens.len() ==> token_is(
                        #[trigger] v@[j],
                        input@,
                        run.tokens[j].0,
                        run.tokens[j].1,
                        run.tokens[j].2,
                    )
                &&& token_is(
                    v@[v@.len() - 1],
                    input@,
                    TokenKind::EndOfInput,
                    input@.len() as int,
                    input@.len() as int,
                )
            },
            Err(e) => lex_from(input@, 0).failure matches Some((p, l)) && e == error_at(
                input@,
                p,
                l,
            ),
        },
{
    let ghost s = input@;
    let mut lexer = AntlrFcLexer::new(input);
    let mut out: Vec<Token> = Vec::new();
    let ghost run0 = lex_from(s, 0);
    loop
        invariant
            lexer.wf(),
            lexer.input() == s,
            s == input@,
            !lexer.done(),
            run0 == lex_from(s, 0),
            run0.failure == lex_from(s, lexer.pos()).failure,
            run0.tokens == out@.map_values(|t: Token| (t.kind, t.start as int, t.end as int))
                + lex_from(s, lexer.pos()).tokens,
            forall|j: int|
                0 <= j < out@.len() ==> token_is(
                    #[trigger] out@[j],
                    s,
                    out@[j].kind,
                    out@[j].start as int,
                    out@[j].end as int,
                ),
        decreases s.len() - lexer.pos(),
    {
        let ghost before = out@;
        let ghost p = lexer.pos();
        proof {
            if p < s.len() {
                lemma_scan_at(s, p);
            }
        }
        match lexer.next_token() {
            Ok(t) => {
                let eof = t.kind == TokenKind::EndOfInput;
                out.push(t);
                proof {
                    let f = |t: Token| (t.kind, t.start as int, t.end as int);
                    if !eof {
                        assert(out@.map_values(f) =~= before.map_values(f).push(f(t)));
                        assert(run0.tokens =~= out@.map_values(f) + lex_from(s, lexer.pos()).tokens);
                    }
                }
                if eof {
                    proof {
                        let f = |t: Token| (t.kind, t.start as int, t.end as int);
                        assert(p == s.len());
                        assert(lex_from(s, p).tokens.len() == 0);
                        assert(lex_from(s, p).failure is None);
                        assert(before.map_values(f) + lex_from(s, p).tokens =~= before.map_values(f));
                        assert(run0.tokens.len() == before.len());
                        assert forall|j: int| 0 <= j < run0.tokens.len() implies token_is(
                            #[trigger] out@[j],
                            s,
                            run0.tokens[j].0,
                            run0.tokens[j].1,
                            run0.tokens[j].2,
                        ) by {
                            assert(run0.tokens[j] == f(before[j]));
                        }
                    }
                    return Ok(out);
                }
            },
            Err(e) => {
                proof {
                    assert(p < s.len());
                    assert(!(scan_at(s, p) is Token));
                    assert(lex_from(s, p).failure == Some((p, scan_at(s, p))));
                }
                return Err(e);
            },
        }
    }
}

} // verus!
