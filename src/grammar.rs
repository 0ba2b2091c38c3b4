//! The lexical grammar: what each rule matches at a position of the input,
//! stated over sequences of characters, and the routines that compute it.
use vstd::prelude::*;
use crate::token::TokenKind;

verus! {

/// Character classes that a rule repeats.
#[derive(PartialEq, Eq, Structural, Clone, Copy, Debug)]
pub enum CharClass {
    Digit,
    IdentStart,
    IdentPart,
    Space,
}

pub open spec fn in_class(cl: CharClass, c: char) -> bool {
    match cl {
        CharClass::Digit => '0' <= c && c <= '9',
        CharClass::IdentStart => ('a' <= c && c <= 'z') || ('A' <= c && c <= 'Z') || c == '_',
        CharClass::IdentPart => ('a' <= c && c <= 'z') || ('A' <= c && c <= 'Z') || c == '_'
            || ('0' <= c && c <= '9'),
        CharClass::Space => c == ' ' || c == '\t' || c == '\n' || c == '\r',
    }
}

/// Whether `c` belongs to the class `cl`.
pub fn is_in_class(cl: CharClass, c: char) -> (r: bool)
    ensures
        r == in_class(cl, c),
{
    match cl {
        CharClass::Digit => '0' <= c && c <= '9',
        CharClass::IdentStart => ('a' <= c && c <= 'z') || ('A' <= c && c <= 'Z') || c == '_',
        CharClass::IdentPart => ('a' <= c && c <= 'z') || ('A' <= c && c <= 'Z') || c == '_'
            || ('0' <= c && c <= '9'),
        CharClass::Space => c == ' ' || c == '\t' || c == '\n' || c == '\r',
    }
}

/// The end of the longest run of `cl` characters that starts at `j`.
pub open spec fn run_end(s: Seq<char>, j: int, cl: CharClass) -> int
    decreases s.len() - j,
{
    if 0 <= j < s.len() && in_class(cl, s[j]) {
        run_end(s, j + 1, cl)
    } else {
        j
    }
}

pub proof fn lemma_run_end(s: Seq<char>, j: int, cl: CharClass)
    requires
        0 <= j <= s.len(),
    ensures
        j <= run_end(s, j, cl) <= s.len(),
        forall|k: int| j <= k < run_end(s, j, cl) ==> in_class(cl, #[trigger] s[k]),
        run_end(s, j, cl) == s.len() || !in_class(cl, s[run_end(s, j, cl)]),
    decreases s.len() - j,
{
    if j < s.len() && in_class(cl, s[j]) {
        lemma_run_end(s, j + 1, cl);
    }
}

/// The end of the longest run of `cl` characters that starts at `j`.
pub fn find_run_end(s: &Vec<char>, j: usize, cl: CharClass) -> (r: usize)
    requires
        j <= s@.len(),
    ensures
        r == run_end(s@, j as int, cl),
{
    let mut k: usize = j;
    while k < s.len() && is_in_class(cl, s[k])
        invariant
            j <= k <= s@.len(),
            run_end(s@, j as int, cl) == run_end(s@, k as int, cl),
        decreases s@.len() - k,
    {
        k = k + 1;
    }
    k
}

/// The single-character punctuation tokens.
pub open spec fn punct_kind(c: char) -> Option<TokenKind> {
    if c == '{' {
        Some(TokenKind::OpenBrace)
    } else if c == '}' {
        Some(TokenKind::CloseBrace)
    } else if c == '[' {
        Some(TokenKind::OpenBracket)
    } else if c == ']' {
        Some(TokenKind::CloseBracket)
    } else if c == ',' {
        Some(TokenKind::Comma)
    } else if c == ':' {
        Some(TokenKind::Colon)
    } else {
        None
    }
}

/// The punctuation token that `c` stands for, if any.
pub fn punctuation(c: char) -> (r: Option<TokenKind>)
    ensures
        r == punct_kind(c),
{
    if c == '{' {
        Some(TokenKind::OpenBrace)
    } else if c == '}' {
        Some(TokenKind::CloseBrace)
    } else if c == '[' {
        Some(TokenKind::OpenBracket)
    } else if c == ']' {
        Some(TokenKind::CloseBracket)
    } else if c == ',' {
        Some(TokenKind::Comma)
    } else if c == ':' {
        Some(TokenKind::Colon)
    } else {
        None
    }
}

/// Whether one of the two escape markers, `<escape>` or `<ctrl46>`, starts at `j`.
pub open spec fn marker_at(s: Seq<char>, j: int) -> bool {
    0 <= j && j + 8 <= s.len() && s[j] == '<' && s[j + 7] == '>' && ((s[j + 1] == 'e' && s[j
        + 2] == 's' && s[j + 3] == 'c' && s[j + 4] == 'a' && s[j + 5] == 'p' && s[j + 6] == 'e')
        || (s[j + 1] == 'c' && s[j + 2] == 't' && s[j + 3] == 'r' && s[j + 4] == 'l' && s[j + 5]
        == '4' && s[j + 6] == '6'))
}

/// Whether an escape marker starts at `j`.
pub fn is_marker_at(s: &Vec<char>, j: usize) -> (r: bool)
    ensures
        r == marker_at(s@, j as int),
{
    if j > s.len() || s.len() - j < 8 {
        return false;
    }
    s[j] == '<' && s[j + 7] == '>' && ((s[j + 1] == 'e' && s[j + 2] == 's' && s[j + 3] == 'c'
        && s[j + 4] == 'a' && s[j + 5] == 'p' && s[j + 6] == 'e') || (s[j + 1] == 'c' && s[j + 2]
        == 't' && s[j + 3] == 'r' && s[j + 4] == 'l' && s[j + 5] == '4' && s[j + 6] == '6'))
}

/// The first position at or after `j` where an escape marker starts.
pub open spec fn next_marker(s: Seq<char>, j: int) -> Option<int>
    decreases s.len() - j,
{
    if j < 0 || j + 8 > s.len() {
        None
    } else if marker_at(s, j) {
        Some(j)
    } else {
        next_marker(s, j + 1)
    }
}

pub proof fn lemma_next_marker(s: Seq<char>, j: int)
    requires
        0 <= j,
    ensures
        match next_marker(s, j) {
            Some(k) => j <= k && k + 8 <= s.len() && marker_at(s, k) && forall|m: int|
                j <= m < k ==> !marker_at(s, m),
            None => forall|m: int| j <= m ==> !marker_at(s, m),
        },
    decreases s.len() - j,
{
    if j + 8 <= s.len() && !marker_at(s, j) {
        lemma_next_marker(s, j + 1);
    }
}

/// The first position at or after `j` where an escape marker starts.
pub fn find_next_marker(s: &Vec<char>, j: usize) -> (r: Option<usize>)
    ensures
        r matches Some(k) ==> next_marker(s@, j as int) == Some(k as int),
        r is None ==> next_marker(s@, j as int) is None,
{
    let mut k: usize = j;
    while k <= s.len() && s.len() - k >= 8
        invariant
            j <= k,
            next_marker(s@, j as int) == next_marker(s@, k as int),
        decreases s@.len() - k,
    {
        if is_marker_at(s, k) {
            return Some(k);
        }
        k = k + 1;
    }
    None
}

/// The end of the integer part that starts at `p`: a lone `0`, or a nonzero
/// digit and the digits after it; `p` where there is none.
pub open spec fn int_end(s: Seq<char>, p: int) -> int {
    if 0 <= p < s.len() && s[p] == '0' {
        p + 1
    } else if 0 <= p < s.len() && '1' <= s[p] && s[p] <= '9' {
        run_end(s, p + 1, CharClass::Digit)
    } else {
        p
    }
}

/// The end of the fractional part (`.` and one or more digits) that starts
/// at `q`; `q` where there is none.
pub open spec fn frac_end(s: Seq<char>, q: int) -> int {
    if 0 <= q && q + 1 < s.len() && s[q] == '.' && in_class(CharClass::Digit, s[q + 1]) {
        run_end(s, q + 1, CharClass::Digit)
    } else {
        q
    }
}

/// Where the digits of an exponent that starts at `q` begin: after `e` or
/// `E` and an optional sign.
pub open spec fn exp_digits_start(s: Seq<char>, q: int) -> int {
    if q + 1 < s.len() && (s[q + 1] == '+' || s[q + 1] == '-') {
        q + 2
    } else {
        q + 1
    }
}

/// The end of the exponent part (`e` or `E`, an optional sign, one or more
/// digits) that starts at `q`; `q` where there is none.
pub open spec fn exp_end(s: Seq<char>, q: int) -> int {
    let r = exp_digits_start(s, q);
    if 0 <= q < s.len() && (s[q] == 'e' || s[q] == 'E') && r < s.len() && in_class(
        CharClass::Digit,
        s[r],
    ) {
        run_end(s, r, CharClass::Digit)
    } else {
        q
    }
}

/// The end of the longest number that starts at `i`: an optional `-`, an
/// integer part, then optionally a fractional part, then optionally an
/// exponent; `i` where no number starts there.
pub open spec fn number_end(s: Seq<char>, i: int) -> int {
    let p = if 0 <= i < s.len() && s[i] == '-' {
        i + 1
    } else {
        i
    };
    let a = int_end(s, p);
    if a == p {
        i
    } else {
        exp_end(s, frac_end(s, a))
    }
}

pub proof fn lemma_number_end(s: Seq<char>, i: int)
    requires
        0 <= i <= s.len(),
    ensures
        i <= number_end(s, i) <= s.len(),
{
    let p = if 0 <= i < s.len() && s[i] == '-' {
        i + 1
    } else {
        i
    };
    if 0 <= p < s.len() {
        lemma_run_end(s, p + 1, CharClass::Digit);
    }
    let a = int_end(s, p);
    if a != p {
        if 0 <= a && a + 1 < s.len() {
            lemma_run_end(s, a + 1, CharClass::Digit);
        }
        let q = frac_end(s, a);
        let r = exp_digits_start(s, q);
        if 0 <= r <= s.len() {
            lemma_run_end(s, r, CharClass::Digit);
        }
    }
}

/// The end of the longest number that starts at `i`, or `i` where none does.
pub fn find_number_end(s: &Vec<char>, i: usize) -> (r: usize)
    requires
        i <= s@.len(),
    ensures
        r == number_end(s@, i as int),
{
    proof {
        lemma_number_end(s@, i as int);
    }
    let n = s.len();
    let p: usize = if i < n && s[i] == '-' {
        i + 1
    } else {
        i
    };
    let a: usize = if p < n && s[p] == '0' {
        p + 1
    } else if p < n && '1' <= s[p] && s[p] <= '9' {
        find_run_end(s, p + 1, CharClass::Digit)
    } else {
        p
    };
    if a == p {
        return i;
    }
    proof {
        lemma_run_end(s@, p + 1, CharClass::Digit);
    }
    let q: usize = if a < n - 1 && s[a] == '.' && is_in_class(CharClass::Digit, s[a + 1]) {
        find_run_end(s, a + 1, CharClass::Digit)
    } else {
        a
    };
    proof {
        if a + 1 < n {
            lemma_run_end(s@, a + 1, CharClass::Digit);
        }
    }
    if q < n && (s[q] == 'e' || s[q] == 'E') {
        let r: usize = if q < n - 1 && (s[q + 1] == '+' || s[q + 1] == '-') {
            q + 2
        } else {
            q + 1
        };
        if r < n && is_in_class(CharClass::Digit, s[r]) {
            return find_run_end(s, r, CharClass::Digit);
        }
    }
    q
}

/// The keyword that an identifier-shaped lexeme spells, or `Identifier`.
pub open spec fn word_kind(w: Seq<char>) -> TokenKind {
    if w == seq!['c', 'a', 'l', 'l'] {
        TokenKind::Call
    } else if w == seq!['t', 'r', 'u', 'e'] || w == seq!['f', 'a', 'l', 's', 'e'] {
        TokenKind::Boolean
    } else if w == seq!['n', 'u', 'l', 'l'] {
        TokenKind::Null
    } else {
        TokenKind::Identifier
    }
}

/// The kind of the identifier-shaped lexeme `s[i..e]`.
pub fn classify_word(s: &Vec<char>, i: usize, e: usize) -> (r: TokenKind)
    requires
        i <= e <= s@.len(),
    ensures
        r == word_kind(s@.subrange(i as int, e as int)),
{
    let ghost w = s@.subrange(i as int, e as int);
    let len = e - i;
    if len == 4 && s[i] == 'c' && s[i + 1] == 'a' && s[i + 2] == 'l' && s[i + 3] == 'l' {
        assert(w =~= seq!['c', 'a', 'l', 'l']);
        return TokenKind::Call;
    }
    if len == 4 && s[i] == 't' && s[i + 1] == 'r' && s[i + 2] == 'u' && s[i + 3] == 'e' {
        assert(w =~= seq!['t', 'r', 'u', 'e']);
        return TokenKind::Boolean;
    }
    if len == 5 && s[i] == 'f' && s[i + 1] == 'a' && s[i + 2] == 'l' && s[i + 3] == 's' && s[i
        + 4] == 'e' {
        assert(w =~= seq!['f', 'a', 'l', 's', 'e']);
        return TokenKind::Boolean;
    }
    if len == 4 && s[i] == 'n' && s[i + 1] == 'u' && s[i + 2] == 'l' && s[i + 3] == 'l' {
        assert(w =~= seq!['n', 'u', 'l', 'l']);
        return TokenKind::Null;
    }
    proof {
        assert(w.len() == len);
        assert(forall|k: int| 0 <= k < w.len() ==> w[k] == s@[i + k]);
        if w == seq!['c', 'a', 'l', 'l'] {
            assert(w[0] == 'c' && w[1] == 'a' && w[2] == 'l' && w[3] == 'l');
        }
        if w == seq!['t', 'r', 'u', 'e'] {
            assert(w[0] == 't' && w[1] == 'r' && w[2] == 'u' && w[3] == 'e');
        }
        if w == seq!['f', 'a', 'l', 's', 'e'] {
            assert(w[0] == 'f' && w[1] == 'a' && w[2] == 'l' && w[3] == 's' && w[4] == 'e');
        }
        if w == seq!['n', 'u', 'l', 'l'] {
            assert(w[0] == 'n' && w[1] == 'u' && w[2] == 'l' && w[3] == 'l');
        }
    }
    TokenKind::Identifier
}

/// What the rules make of the input at one position, in mathematical terms.
pub enum Lexed {
    /// A token of the kind, ending before the position.
    Token(TokenKind, int),
    /// No rule matches the character there.
    Unrecognized,
    /// An escape marker opens a string that no later marker closes.
    Unterminated,
}

/// What the rules make of the input at one position.
#[derive(PartialEq, Eq, Structural, Clone, Copy, Debug)]
pub enum Scan {
    /// A token of the kind, ending before the position.
    Token(TokenKind, usize),
    /// No rule matches the character there.
    Unrecognized,
    /// An escape marker opens a string that no later marker closes.
    Unterminated,
}

impl Scan {
    pub open spec fn lexed(self) -> Lexed {
        match self {
            Scan::Token(k, e) => Lexed::Token(k, e as int),
            Scan::Unrecognized => Lexed::Unrecognized,
            Scan::Unterminated => Lexed::Unterminated,
        }
    }
}

/// The token that starts at `i < s.len()`. The first character decides the
/// rule, and the rule takes the longest lexeme it can: punctuation is one
/// character; an escape marker opens a string that runs through the next
/// marker; `-` or a digit starts a number; a letter or `_` starts an
/// identifier, which is a keyword where it spells one; blanks make a
/// whitespace token.
pub open spec fn scan_at(s: Seq<char>, i: int) -> Lexed {
    let c = s[i];
    if punct_kind(c) is Some {
        Lexed::Token(punct_kind(c)->0, i + 1)
    } else if marker_at(s, i) {
        match next_marker(s, i + 8) {
            Some(k) => Lexed::Token(TokenKind::EscapedString, k + 8),
            None => Lexed::Unterminated,
        }
    } else if c == '-' || in_class(CharClass::Digit, c) {
        let e = number_end(s, i);
        if e == i {
            Lexed::Unrecognized
        } else {
            Lexed::Token(TokenKind::Number, e)
        }
    } else if in_class(CharClass::IdentStart, c) {
        let e = run_end(s, i + 1, CharClass::IdentPart);
        Lexed::Token(word_kind(s.subrange(i, e)), e)
    } else if in_class(CharClass::Space, c) {
        Lexed::Token(TokenKind::Whitespace, run_end(s, i + 1, CharClass::Space))
    } else {
        Lexed::Unrecognized
    }
}

/// A token that the rules give ends after its start and within the input,
/// and is never an end-of-input or a lone escape marker.
pub proof fn lemma_scan_at(s: Seq<char>, i: int)
    requires
        0 <= i < s.len(),
    ensures
        scan_at(s, i) matches Lexed::Token(k, e) ==> i < e <= s.len() && k != TokenKind::EndOfInput
            && k != TokenKind::Escape,
{
    lemma_number_end(s, i);
    lemma_run_end(s, i + 1, CharClass::IdentPart);
    lemma_run_end(s, i + 1, CharClass::Space);
    if marker_at(s, i) {
        lemma_next_marker(s, i + 8);
    }
}

/// The token that starts at `i`, by the rules of `scan_at`.
pub fn scan(s: &Vec<char>, i: usize) -> (r: Scan)
    requires
        i < s@.len(),
    ensures
        r.lexed() == scan_at(s@, i as int),
{
    proof {
        lemma_scan_at(s@, i as int);
    }
    let n = s.len();
    let c = s[i];
    if let Some(k) = punctuation(c) {
        return Scan::Token(k, i + 1);
    }
    if is_marker_at(s, i) {
        return match find_next_marker(s, i + 8) {
            Some(k) => {
                proof {
                    lemma_next_marker(s@, i + 8);
                }
                Scan::Token(TokenKind::EscapedString, k + 8)
            },
            None => Scan::Unterminated,
        };
    }
    if c == '-' || is_in_class(CharClass::Digit, c) {
        let e = find_number_end(s, i);
        if e == i {
            return Scan::Unrecognized;
        }
        return Scan::Token(TokenKind::Number, e);
    }
    if is_in_class(CharClass::IdentStart, c) {
        let e = find_run_end(s, i + 1, CharClass::IdentPart);
        return Scan::Token(classify_word(s, i, e), e);
    }
    if is_in_class(CharClass::Space, c) {
        return Scan::Token(TokenKind::Whitespace, find_run_end(s, i + 1, CharClass::Space));
    }
    Scan::Unrecognized
}

} // verus!
