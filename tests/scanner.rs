use fc_lexer::grammar::{
    classify_word, find_next_marker, find_number_end, find_run_end, is_in_class, is_marker_at,
    punctuation, scan, CharClass, Scan,
};
use fc_lexer::lexer::{tokenize, AntlrFcLexer, LexError};
use fc_lexer::token::{Channel, CommonTokenFactory, Token, TokenKind};

fn chars(s: &str) -> Vec<char> {
    s.chars().collect()
}

fn lex(s: &str) -> Result<Vec<Token>, LexError> {
    tokenize(chars(s))
}

fn kinds(s: &str) -> Vec<TokenKind> {
    lex(s).unwrap().iter().map(|t| t.kind).collect()
}

fn text(t: &Token) -> String {
    t.text.iter().collect()
}

#[test]
fn punctuation_one_token_per_character() {
    let toks = lex("{}[],:").unwrap();
    let expected = [
        TokenKind::OpenBrace,
        TokenKind::CloseBrace,
        TokenKind::OpenBracket,
        TokenKind::CloseBracket,
        TokenKind::Comma,
        TokenKind::Colon,
    ];
    assert_eq!(toks.len(), expected.len() + 1);
    for (i, k) in expected.iter().enumerate() {
        assert_eq!(toks[i].kind, *k);
        assert_eq!(toks[i].channel, Channel::Default);
        assert_eq!(toks[i].start, i);
        assert_eq!(toks[i].end, i + 1);
    }
    assert_eq!(toks[6].kind, TokenKind::EndOfInput);
}

#[test]
fn lexemes_reproduce_input() {
    let src = "call {\n  \"name\": <escape>a,b<ctrl46>, x: [1, -2.5e3, true, null]\r\n}\t";
    let src = src.replace('"', "");
    let toks = lex(&src).unwrap();
    let joined: String = toks.iter().map(text).collect();
    assert_eq!(joined, src);
    assert!(toks.iter().any(|t| t.channel == Channel::Hidden));
}

#[test]
fn call_prefix_is_an_identifier() {
    let toks = lex("calling").unwrap();
    assert_eq!(toks.len(), 2);
    assert_eq!(toks[0].kind, TokenKind::Identifier);
    assert_eq!(text(&toks[0]), "calling");
}

#[test]
fn keywords() {
    assert_eq!(kinds("call"), vec![TokenKind::Call, TokenKind::EndOfInput]);
    assert_eq!(kinds("true"), vec![TokenKind::Boolean, TokenKind::EndOfInput]);
    assert_eq!(kinds("false"), vec![TokenKind::Boolean, TokenKind::EndOfInput]);
    assert_eq!(kinds("null"), vec![TokenKind::Null, TokenKind::EndOfInput]);
    assert_eq!(kinds("nullx"), vec![TokenKind::Identifier, TokenKind::EndOfInput]);
    assert_eq!(kinds("_a1"), vec![TokenKind::Identifier, TokenKind::EndOfInput]);
}

#[test]
fn numbers_scan_as_one_token() {
    for src in ["0", "-0", "3.14", "2e10", "-1.5e-3", "10E+2", "123"] {
        let toks = lex(src).unwrap();
        assert_eq!(toks.len(), 2, "{}", src);
        assert_eq!(toks[0].kind, TokenKind::Number);
        assert_eq!(text(&toks[0]), src);
    }
}

#[test]
fn leading_zero_splits_into_two_numbers() {
    let toks = lex("01").unwrap();
    assert_eq!(toks.len(), 3);
    assert_eq!(text(&toks[0]), "0");
    assert_eq!(toks[1].kind, TokenKind::Number);
    assert_eq!(text(&toks[1]), "1");
}

#[test]
fn number_stops_before_incomplete_parts() {
    assert_eq!(find_number_end(&chars("1."), 0), 1);
    assert_eq!(find_number_end(&chars("1e"), 0), 1);
    assert_eq!(find_number_end(&chars("1e+"), 0), 1);
    assert_eq!(find_number_end(&chars("-"), 0), 0);
    assert_eq!(find_number_end(&chars("2.5e7x"), 0), 5);
    assert_eq!(kinds("1e"), vec![TokenKind::Number, TokenKind::Identifier, TokenKind::EndOfInput]);
}

#[test]
fn lone_minus_is_unrecognized() {
    assert_eq!(lex("-a").unwrap_err(), (LexError::UnrecognizedCharacter { offset: 0, line: 1, column: 0 }));
}

#[test]
fn escaped_string_keeps_quotes() {
    let src = "<escape>he said \"hi\"<escape>";
    let toks = lex(src).unwrap();
    assert_eq!(toks.len(), 2);
    assert_eq!(toks[0].kind, TokenKind::EscapedString);
    assert_eq!(text(&toks[0]), src);
    assert_eq!(toks[0].start, 0);
    assert_eq!(toks[0].end, src.chars().count());
}

#[test]
fn escaped_string_stops_at_first_marker() {
    let toks = lex("<ctrl46>{x}<escape>y").unwrap();
    assert_eq!(toks[0].kind, TokenKind::EscapedString);
    assert_eq!(text(&toks[0]), "<ctrl46>{x}<escape>");
    assert_eq!(toks[1].kind, TokenKind::Identifier);
    assert_eq!(scan(&chars("<escape><escape>"), 0), Scan::Token(TokenKind::EscapedString, 16));
}

#[test]
fn unterminated_string() {
    assert_eq!(lex("<escape>abc").unwrap_err(), (LexError::UnterminatedString { start_offset: 0 }));
    assert_eq!(lex("[ <ctrl46>").unwrap_err(), (LexError::UnterminatedString { start_offset: 2 }));
}

#[test]
fn whitespace_is_hidden() {
    let toks = lex("true  false").unwrap();
    assert_eq!(toks.len(), 4);
    assert_eq!(toks[0].kind, TokenKind::Boolean);
    assert_eq!(text(&toks[0]), "true");
    assert_eq!(toks[1].kind, TokenKind::Whitespace);
    assert_eq!(toks[1].channel, Channel::Hidden);
    assert_eq!(text(&toks[1]), "  ");
    assert_eq!(toks[2].kind, TokenKind::Boolean);
    assert_eq!(toks[2].channel, Channel::Default);
    assert_eq!(text(&toks[2]), "false");
}

#[test]
fn exhausted_after_end_of_input() {
    let mut lexer = AntlrFcLexer::new(chars("a"));
    assert_eq!(lexer.next_token().unwrap().kind, TokenKind::Identifier);
    let eof = lexer.next_token().unwrap();
    assert_eq!(eof.kind, TokenKind::EndOfInput);
    assert_eq!(eof.start, 1);
    assert!(eof.text.is_empty());
    assert_eq!(lexer.next_token().unwrap_err(), LexError::ExhaustedInput);
    assert_eq!(lexer.next_token().unwrap_err(), LexError::ExhaustedInput);
}

#[test]
fn empty_input_gives_end_of_input() {
    let mut lexer = AntlrFcLexer::new(Vec::new());
    assert_eq!(lexer.next_token().unwrap().kind, TokenKind::EndOfInput);
    assert_eq!(lexer.next_token().unwrap_err(), LexError::ExhaustedInput);
}

#[test]
fn unrecognized_character_position() {
    assert_eq!(
        lex("{\n  x @").unwrap_err(), (LexError::UnrecognizedCharacter { offset: 6, line: 2, column: 4 })
    );
    assert_eq!(lex("<esc>").unwrap_err(), (LexError::UnrecognizedCharacter { offset: 0, line: 1, column: 0 }));
}

#[test]
fn failed_scan_keeps_cursor() {
    let mut lexer = AntlrFcLexer::new(chars("a ?"));
    lexer.next_token().unwrap();
    lexer.next_token().unwrap();
    assert_eq!(lexer.get_offset(), 2);
    assert!(lexer.next_token().is_err());
    assert_eq!(lexer.get_offset(), 2);
    assert!(lexer.next_token().is_err());
}

#[test]
fn lines_and_columns() {
    let toks = lex("[\n 1,\r\n2]").unwrap();
    let placed: Vec<(TokenKind, usize, usize)> = toks
        .iter()
        .filter(|t| t.channel == Channel::Default)
        .map(|t| (t.kind, t.line, t.column))
        .collect();
    assert_eq!(
        placed,
        vec![
            (TokenKind::OpenBracket, 1, 0),
            (TokenKind::Number, 2, 1),
            (TokenKind::Comma, 2, 2),
            (TokenKind::Number, 3, 0),
            (TokenKind::CloseBracket, 3, 1),
            (TokenKind::EndOfInput, 3, 2),
        ]
    );
    let mut lexer = AntlrFcLexer::new(chars("a\nbc"));
    lexer.next_token().unwrap();
    lexer.next_token().unwrap();
    assert_eq!(lexer.get_line(), 2);
    assert_eq!(lexer.get_char_position_in_line(), 0);
}

#[test]
fn custom_factory_builds_same_tokens() {
    let tf = CommonTokenFactory::new();
    let mut lexer = AntlrFcLexer::new_with_token_factory(chars("null"), &tf);
    let t = lexer.next_token().unwrap();
    assert_eq!(t.kind, TokenKind::Null);
    assert_eq!(text(&t), "null");
    let made = tf.create(&chars("xyz"), TokenKind::Identifier, 1, 3, 1, 1);
    assert_eq!(text(&made), "yz");
    assert_eq!(made.channel, Channel::Default);
}

#[test]
fn vocabulary_names() {
    assert_eq!(TokenKind::OpenBrace.token_type(), 1);
    assert_eq!(TokenKind::Whitespace.token_type(), 14);
    assert_eq!(TokenKind::EndOfInput.token_type(), -1);
    assert_eq!(TokenKind::Null.symbolic_name(), "NULL_LITERAL");
    assert_eq!(TokenKind::Identifier.symbolic_name(), "ID");
    assert_eq!(TokenKind::Call.literal_name(), Some("'call'"));
    assert_eq!(TokenKind::Boolean.literal_name(), None);
}

#[test]
fn grammar_helpers() {
    assert!(is_in_class(CharClass::Digit, '7'));
    assert!(!is_in_class(CharClass::IdentStart, '7'));
    assert!(is_in_class(CharClass::IdentPart, '7'));
    assert!(is_in_class(CharClass::Space, '\r'));
    assert_eq!(punctuation(':'), Some(TokenKind::Colon));
    assert_eq!(punctuation('<'), None);
    let s = chars("ab<ctrl46>");
    assert!(is_marker_at(&s, 2));
    assert!(!is_marker_at(&s, 1));
    assert!(!is_marker_at(&s, 3));
    assert_eq!(find_next_marker(&s, 0), Some(2));
    assert_eq!(find_next_marker(&s, 3), None);
    assert_eq!(find_run_end(&chars("a1_ b"), 0, CharClass::IdentPart), 3);
    assert_eq!(classify_word(&chars("xfalse"), 1, 6), TokenKind::Boolean);
    assert_eq!(classify_word(&chars("calls"), 0, 5), TokenKind::Identifier);
    assert_eq!(scan(&chars("@"), 0), Scan::Unrecognized);
    assert_eq!(scan(&chars("<escape>"), 0), Scan::Unterminated);
    assert_eq!(scan(&chars("x -12.0e+3,"), 2), Scan::Token(TokenKind::Number, 10));
}
