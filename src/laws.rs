//! Properties of a whole scan, proved from the rules.
use vstd::prelude::*;
use crate::grammar::{
    exp_digits_start, exp_end, frac_end, in_class, int_end, lemma_next_marker, lemma_run_end,
    lemma_scan_at, marker_at, number_end, punct_kind, run_end, scan_at, word_kind, CharClass,
    Lexed,
};
use crate::lexer::lex_from;
use crate::token::{channel_of, Channel, TokenKind};

verus! {

/// The lexemes of `tokens`, as spans of `s`, written one after another.
pub open spec fn concat_lexemes(s: Seq<char>, tokens: Seq<(TokenKind, int, int)>) -> Seq<char>
    decreases tokens.len(),
{
    if tokens.len() == 0 {
        seq![]
    } else {
        s.subrange(tokens[0].1, tokens[0].2) + concat_lexemes(s, tokens.drop_first())
    }
}

proof fn lemma_lexemes_from(s: Seq<char>, i: int)
    requires
        0 <= i <= s.len(),
        lex_from(s, i).failure is None,
    ensures
        concat_lexemes(s, lex_from(s, i).tokens) == s.subrange(i, s.len() as int),
    decreases s.len() - i,
{
    if i == s.len() {
        assert(s.subrange(i, i) =~= Seq::<char>::empty());
    } else {
        lemma_scan_at(s, i);
        if let Lexed::Token(k, e) = scan_at(s, i) {
            lemma_lexemes_from(s, e);
            let toks = lex_from(s, i).tokens;
            assert(toks.drop_first() =~= lex_from(s, e).tokens);
            assert(s.subrange(i, e) + s.subrange(e, s.len() as int) =~= s.subrange(
                i,
                s.len() as int,
            ));
        }
    }
}

/// Where a scan of `s` gets to the end, the lexemes of its tokens, hidden
/// whitespace included, written in order give back `s` exactly.
pub proof fn lemma_lexemes_reproduce_input(s: Seq<char>)
    requires
        lex_from(s, 0).failure is None,
    ensures
        concat_lexemes(s, lex_from(s, 0).tokens) == s,
{
    lemma_lexemes_from(s, 0);
    assert(s.subrange(0, s.len() as int) =~= s);
}

proof fn lemma_punctuation_from(s: Seq<char>, i: int)
    requires
        0 <= i <= s.len(),
        forall|k: int| 0 <= k < s.len() ==> (#[trigger] punct_kind(s[k])) is Some,
    ensures
        lex_from(s, i).failure is None,
        lex_from(s, i).tokens.len() == s.len() - i,
        forall|j: int|
            0 <= j < s.len() - i ==> #[trigger] lex_from(s, i).tokens[j] == (
                punct_kind(s[i + j])->0,
                i + j,
                i + j + 1,
            ),
    decreases s.len() - i,
{
    if i < s.len() {
        assert(punct_kind(s[i]) is Some);
        lemma_punctuation_from(s, i + 1);
        let toks = lex_from(s, i).tokens;
        let rest = lex_from(s, i + 1).tokens;
        assert forall|j: int| 0 <= j < s.len() - i implies #[trigger] toks[j] == (
            punct_kind(s[i + j])->0,
            i + j,
            i + j + 1,
        ) by {
            if j > 0 {
                assert(toks[j] == rest[j - 1]);
            }
        }
    }
}

/// An input made only of `{ } [ ] , :` scans to one token per character,
/// each of the kind that its character names and on the default channel.
pub proof fn lemma_punctuation_one_token_each(s: Seq<char>)
    requires
        forall|k: int| 0 <= k < s.len() ==> (#[trigger] punct_kind(s[k])) is Some,
    ensures
        lex_from(s, 0).failure is None,
        lex_from(s, 0).tokens.len() == s.len(),
        forall|k: int|
            0 <= k < s.len() ==> #[trigger] lex_from(s, 0).tokens[k] == (
                punct_kind(s[k])->0,
                k,
                k + 1,
            ) && channel_of(punct_kind(s[k])->0) == Channel::Default,
{
    lemma_punctuation_from(s, 0);
    assert forall|k: int| 0 <= k < s.len() implies channel_of(punct_kind(s[k])->0)
        == Channel::Default by {
        assert(punct_kind(s[k]) is Some);
    }
}

/// Every character of `s[j..m]` is a digit.
pub open spec fn all_digits(s: Seq<char>, j: int, m: int) -> bool {
    forall|k: int| j <= k < m ==> in_class(CharClass::Digit, #[trigger] s[k])
}

/// `s[i..e]` splits at `a`, `b`, `c` into a number's parts: an optional
/// `-` in `s[i..a]`; the integer part `s[a..b]`, a lone `0` or a nonzero
/// digit and more digits; an optional fraction `s[b..c]`, `.` and one or
/// more digits; an optional exponent `s[c..e]`, `e` or `E`, an optional
/// sign and one or more digits.
pub open spec fn number_parts(s: Seq<char>, i: int, a: int, b: int, c: int, e: int) -> bool {
    &&& 0 <= i <= a < b <= c <= e <= s.len()
    &&& (a == i || (a == i + 1 && s[i] == '-'))
    &&& ((b == a + 1 && s[a] == '0') || ('1' <= s[a] && s[a] <= '9' && all_digits(s, a + 1, b)))
    &&& (c == b || (c >= b + 2 && s[b] == '.' && all_digits(s, b + 1, c)))
    &&& (e == c || ((s[c] == 'e' || s[c] == 'E') && ((e >= c + 2 && all_digits(s, c + 1, e)) || (
    e >= c + 3 && (s[c + 1] == '+' || s[c + 1] == '-') && all_digits(s, c + 2, e)))))
}

/// `s[i..e]` is a number.
pub open spec fn is_number_span(s: Seq<char>, i: int, e: int) -> bool {
    exists|a: int, b: int, c: int| number_parts(s, i, a, b, c, e)
}

proof fn lemma_run_covers(s: Seq<char>, j: int, m: int, cl: CharClass)
    requires
        0 <= j <= m <= s.len(),
        forall|k: int| j <= k < m ==> in_class(cl, #[trigger] s[k]),
    ensures
        m <= run_end(s, j, cl),
    decreases m - j,
{
    lemma_run_end(s, j, cl);
    if j < m {
        assert(in_class(cl, s[j]));
        lemma_run_covers(s, j + 1, m, cl);
    }
}

/// The number rule takes the longest number: `number_end(s, i)` is past
/// `i` exactly when some number starts at `i`; then `s[i..number_end(s, i)]`
/// is a number, and no longer span from `i` is one.
pub proof fn lemma_number_longest_match(s: Seq<char>, i: int)
    requires
        0 <= i < s.len(),
    ensures
        number_end(s, i) > i ==> is_number_span(s, i, number_end(s, i)),
        forall|e: int| i < e <= s.len() && #[trigger] is_number_span(s, i, e) ==> e <= number_end(
            s,
            i,
        ) && number_end(s, i) > i,
{
    let p = if s[i] == '-' {
        i + 1
    } else {
        i
    };
    let a = int_end(s, p);
    if p < s.len() {
        lemma_run_end(s, p + 1, CharClass::Digit);
    }
    let q = frac_end(s, a);
    if 0 <= a && a + 1 < s.len() {
        lemma_run_end(s, a + 1, CharClass::Digit);
    }
    let r = exp_digits_start(s, q);
    if 0 <= r <= s.len() {
        lemma_run_end(s, r, CharClass::Digit);
    }
    if number_end(s, i) > i {
        assert(number_parts(s, i, p, a, q, number_end(s, i)));
    }
    assert forall|e: int| i < e <= s.len() && #[trigger] is_number_span(s, i, e) implies e
        <= number_end(s, i) && number_end(s, i) > i by {
        let (a1, b1, c1) = choose|a1: int, b1: int, c1: int| number_parts(s, i, a1, b1, c1, e);
        assert(a1 == p);
        if b1 > a1 + 1 || s[a1] != '0' {
            lemma_run_covers(s, a1 + 1, b1, CharClass::Digit);
        }
        if b1 < a {
            assert(in_class(CharClass::Digit, s[b1]));
        } else {
            assert(b1 == a);
            if c1 > b1 {
                lemma_run_covers(s, b1 + 1, c1, CharClass::Digit);
            }
            if c1 < q {
                if c1 > b1 {
                    assert(in_class(CharClass::Digit, s[c1]));
                }
            } else {
                assert(c1 == q);
                if e > c1 {
                    if s[c1 + 1] == '+' || s[c1 + 1] == '-' {
                        lemma_run_covers(s, c1 + 2, e, CharClass::Digit);
                    } else {
                        lemma_run_covers(s, c1 + 1, e, CharClass::Digit);
                    }
                }
            }
        }
    }
}

/// A word takes every identifier character that follows its first letter,
/// and is `call` (or another keyword) only where the whole word spells it:
/// the token that starts at a letter or `_` ends where identifier
/// characters stop.
pub proof fn lemma_word_takes_longest_run(s: Seq<char>, i: int)
    requires
        0 <= i < s.len(),
        in_class(CharClass::IdentStart, s[i]),
    ensures
        scan_at(s, i) matches Lexed::Token(k, e) && i < e <= s.len() && (forall|m: int|
            i < m < e ==> in_class(CharClass::IdentPart, #[trigger] s[m])) && (e == s.len()
            || !in_class(CharClass::IdentPart, s[e])) && k == word_kind(s.subrange(i, e)) && (k
            == TokenKind::Call <==> s.subrange(i, e) == seq!['c', 'a', 'l', 'l']),
{
    lemma_run_end(s, i + 1, CharClass::IdentPart);
    assert(!marker_at(s, i));
}

/// A string opened by an escape marker at `i` runs through the first
/// marker that starts at or after `i + 8`, whichever of the two spellings
/// each marker has; with no such marker the scan fails as unterminated.
pub proof fn lemma_string_ends_at_first_marker(s: Seq<char>, i: int)
    requires
        0 <= i < s.len(),
        marker_at(s, i),
    ensures
        match scan_at(s, i) {
            Lexed::Token(k, e) => k == TokenKind::EscapedString && i + 16 <= e <= s.len()
                && marker_at(s, e - 8) && forall|m: int| i + 8 <= m < e - 8 ==> !marker_at(s, m),
            Lexed::Unterminated => forall|m: int| i + 8 <= m ==> !marker_at(s, m),
            Lexed::Unrecognized => false,
        },
{
    lemma_next_marker(s, i + 8);
}

} // verus!
