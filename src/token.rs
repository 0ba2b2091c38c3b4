use vstd::prelude::*;

verus! {

/// The classes of tokens that the scanner produces.
#[derive(PartialEq, Eq, Structural, Clone, Copy, Debug)]
pub enum TokenKind {
    OpenBrace,
    CloseBrace,
    OpenBracket,
    CloseBracket,
    Comma,
    Colon,
    /// A lone escape marker. An escape marker always opens a string, so the
    /// scanner reports an unclosed one as an error instead of this kind.
    Escape,
    Boolean,
    Null,
    Number,
    EscapedString,
    Call,
    Identifier,
    /// Blanks between tokens, routed to the hidden channel.
    Whitespace,
    /// The end of the input, reported once.
    EndOfInput,
}

/// Whether a token matters to a parser or is trivia.
#[derive(PartialEq, Eq, Structural, Clone, Copy, Debug)]
pub enum Channel {
    Default,
    Hidden,
}

/// The channel that tokens of a kind are routed to.
pub open spec fn channel_of(k: TokenKind) -> Channel {
    if k == TokenKind::Whitespace {
        Channel::Hidden
    } else {
        Channel::Default
    }
}

/// The line (from 1) and the column (from 0) of position `n` of `s`.
pub open spec fn line_col(s: Seq<char>, n: int) -> (int, int)
    decreases n,
{
    if n <= 0 {
        (1, 0)
    } else {
        let (l, c) = line_col(s, n - 1);
        if s[n - 1] == '\n' {
            (l + 1, 0)
        } else {
            (l, c + 1)
        }
    }
}

pub proof fn lemma_line_col_bounds(s: Seq<char>, n: int)
    requires
        0 <= n,
    ensures
        1 <= line_col(s, n).0 <= n + 1,
        0 <= line_col(s, n).1 <= n,
    decreases n,
{
    if n > 0 {
        lemma_line_col_bounds(s, n - 1);
    }
}

/// A classified fragment of the input, with where it stands.
#[derive(Clone, Debug)]
pub struct Token {
    pub kind: TokenKind,
    pub channel: Channel,
    /// The lexeme: the characters of the input that the token covers.
    pub text: Vec<char>,
    /// Offset of the first character of the lexeme.
    pub start: usize,
    /// Offset just past the last character of the lexeme.
    pub end: usize,
    /// Line of the first character, from 1.
    pub line: usize,
    /// Column of the first character, from 0.
    pub column: usize,
}

/// `t` is the token of kind `k` over `s[start..end]`, placed and routed as
/// the rules say.
pub open spec fn token_is(t: Token, s: Seq<char>, k: TokenKind, start: int, end: int) -> bool {
    &&& t.kind == k
    &&& t.channel == channel_of(k)
    &&& t.start == start
    &&& t.end == end
    &&& t.text@ == s.subrange(start, end)
    &&& (t.line as int, t.column as int) == line_col(s, start)
}

/// Makes the tokens that a scanner hands out, copying each lexeme out of the
/// input.
#[derive(Clone, Copy, Debug)]
pub struct CommonTokenFactory {}

impl CommonTokenFactory {
    pub fn new() -> (r: CommonTokenFactory) {
        CommonTokenFactory {  }
    }

    /// The token of kind `kind` over `input[start..end]`, at the given line
    /// and column.
    pub fn create(
        &self,
        input: &Vec<char>,
        kind: TokenKind,
        start: usize,
        end: usize,
        line: usize,
        column: usize,
    ) -> (t: Token)
        requires
            start <= end <= input@.len(),
        ensures
            t.kind == kind,
            t.channel == channel_of(kind),
            t.start == start,
            t.end == end,
            t.text@ == input@.subrange(start as int, end as int),
            t.line == line,
            t.column == column,
    {
        let mut text: Vec<char> = Vec::new();
        let mut k: usize = start;
        while k < end
            invariant
                start <= k <= end <= input@.len(),
                text@ == input@.subrange(start as int, k as int),
            decreases end - k,
        {
            text.push(input[k]);
            k = k + 1;
            assert(text@ =~= input@.subrange(start as int, k as int));
        }
        let channel = if kind == TokenKind::Whitespace {
            Channel::Hidden
        } else {
            Channel::Default
        };
        Token { kind, channel, text, start, end, line, column }
    }
}

/// Token type numbers, in the order the grammar declares its rules.
pub const OPEN_BRACE: i32 = 1;
pub const CLOSE_BRACE: i32 = 2;
pub const OPEN_BRACKET: i32 = 3;
pub const CLOSE_BRACKET: i32 = 4;
pub const COMMA: i32 = 5;
pub const COLON: i32 = 6;
pub const ESCAPE: i32 = 7;
pub const BOOLEAN: i32 = 8;
pub const NULL_LITERAL: i32 = 9;
pub const NUMBER: i32 = 10;
pub const ESCAPED_STRING: i32 = 11;
pub const CALL: i32 = 12;
pub const ID: i32 = 13;
pub const WS: i32 = 14;
/// The token type of the end-of-input token.
pub const EOF: i32 = -1;

impl TokenKind {
    /// The token type number of the kind.
    pub open spec fn type_number(self) -> i32 {
        match self {
            TokenKind::OpenBrace => OPEN_BRACE,
            TokenKind::CloseBrace => CLOSE_BRACE,
            TokenKind::OpenBracket => OPEN_BRACKET,
            TokenKind::CloseBracket => CLOSE_BRACKET,
            TokenKind::Comma => COMMA,
            TokenKind::Colon => COLON,
            TokenKind::Escape => ESCAPE,
            TokenKind::Boolean => BOOLEAN,
            TokenKind::Null => NULL_LITERAL,
            TokenKind::Number => NUMBER,
            TokenKind::EscapedString => ESCAPED_STRING,
            TokenKind::Call => CALL,
            TokenKind::Identifier => ID,
            TokenKind::Whitespace => WS,
            TokenKind::EndOfInput => EOF,
        }
    }

    /// The rule name of the kind, as diagnostics print it.
    pub open spec fn symbolic(self) -> Seq<char> {
        match self {
            TokenKind::OpenBrace => "OPEN_BRACE"@,
            TokenKind::CloseBrace => "CLOSE_BRACE"@,
            TokenKind::OpenBracket => "OPEN_BRACKET"@,
            TokenKind::CloseBracket => "CLOSE_BRACKET"@,
            TokenKind::Comma => "COMMA"@,
            TokenKind::Colon => "COLON"@,
            TokenKind::Escape => "ESCAPE"@,
            TokenKind::Boolean => "BOOLEAN"@,
            TokenKind::Null => "NULL_LITERAL"@,
            TokenKind::Number => "NUMBER"@,
            TokenKind::EscapedString => "ESCAPED_STRING"@,
            TokenKind::Call => "CALL"@,
            TokenKind::Identifier => "ID"@,
            TokenKind::Whitespace => "WS"@,
            TokenKind::EndOfInput => "EOF"@,
        }
    }

    /// The fixed spelling of the kind, quoted, where it has exactly one.
    pub open spec fn literal(self) -> Option<Seq<char>> {
        match self {
            TokenKind::OpenBrace => Some("'{'"@),
            TokenKind::CloseBrace => Some("'}'"@),
            TokenKind::OpenBracket => Some("'['"@),
            TokenKind::CloseBracket => Some("']'"@),
            TokenKind::Comma => Some("','"@),
            TokenKind::Colon => Some("':'"@),
            TokenKind::Escape => None,
            TokenKind::Boolean => None,
            TokenKind::Null => Some("'null'"@),
            TokenKind::Number => None,
            TokenKind::EscapedString => None,
            TokenKind::Call => Some("'call'"@),
            TokenKind::Identifier => None,
            TokenKind::Whitespace => None,
            TokenKind::EndOfInput => None,
        }
    }

    /// The token type number of the kind.
    pub fn token_type(&self) -> (r: i32)
        ensures
            r == self.type_number(),
    {
        match self {
            TokenKind::OpenBrace => OPEN_BRACE,
            TokenKind::CloseBrace => CLOSE_BRACE,
            TokenKind::OpenBracket => OPEN_BRACKET,
            TokenKind::CloseBracket => CLOSE_BRACKET,
            TokenKind::Comma => COMMA,
            TokenKind::Colon => COLON,
            TokenKind::Escape => ESCAPE,
            TokenKind::Boolean => BOOLEAN,
            TokenKind::Null => NULL_LITERAL,
            TokenKind::Number => NUMBER,
            TokenKind::EscapedString => ESCAPED_STRING,
            TokenKind::Call => CALL,
            TokenKind::Identifier => ID,
            TokenKind::Whitespace => WS,
            TokenKind::EndOfInput => EOF,
        }
    }

    /// The rule name of the kind, as diagnostics print it.
    pub fn symbolic_name(&self) -> (r: &'static str)
        ensures
            r@ == self.symbolic(),
    {
        match self {
            TokenKind::OpenBrace => "OPEN_BRACE",
            TokenKind::CloseBrace => "CLOSE_BRACE",
            TokenKind::OpenBracket => "OPEN_BRACKET",
            TokenKind::CloseBracket => "CLOSE_BRACKET",
            TokenKind::Comma => "COMMA",
            TokenKind::Colon => "COLON",
            TokenKind::Escape => "ESCAPE",
            TokenKind::Boolean => "BOOLEAN",
            TokenKind::Null => "NULL_LITERAL",
            TokenKind::Number => "NUMBER",
            TokenKind::EscapedString => "ESCAPED_STRING",
            TokenKind::Call => "CALL",
            TokenKind::Identifier => "ID",
            TokenKind::Whitespace => "WS",
            TokenKind::EndOfInput => "EOF",
        }
    }

    /// The fixed spelling of the kind, quoted, where it has exactly one.
    pub fn literal_name(&self) -> (r: Option<&'static str>)
        ensures
            r matches Some(n) ==> self.literal() == Some(n@),
            r is None ==> self.literal() is None,
    {
        match self {
            TokenKind::OpenBrace => Some("'{'"),
            TokenKind::CloseBrace => Some("'}'"),
            TokenKind::OpenBracket => Some("'['"),
            TokenKind::CloseBracket => Some("']'"),
            TokenKind::Comma => Some("','"),
            TokenKind::Colon => Some("':'"),
            TokenKind::Escape => None,
            TokenKind::Boolean => None,
            TokenKind::Null => Some("'null'"),
            TokenKind::Number => None,
            TokenKind::EscapedString => None,
            TokenKind::Call => Some("'call'"),
            TokenKind::Identifier => None,
            TokenKind::Whitespace => None,
            TokenKind::EndOfInput => None,
        }
    }
}

} // verus!
