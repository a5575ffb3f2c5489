use pratt::pattern::{at_start, number, operator, text};
use pratt::text::{before, first_char, same_text};
use pratt::token::{
    is_keyword, is_punctuation, scan, skip_line, skip_trivia, token, word_token, Lexer,
    ParseError, Token,
};

fn tokens(src: &str) -> Vec<(String, Option<&'static str>)> {
    let mut lexer = Lexer::new(src);
    let mut out = Vec::new();
    loop {
        match lexer.next() {
            Ok(Some(Token::Atom(text, kind))) => out.push((text.to_string(), Some(kind))),
            Ok(Some(Token::Op(text))) => out.push((text.to_string(), None)),
            Ok(None) => return out,
            Err(e) => panic!("{src:?} failed: {e:?}"),
        }
    }
}

fn atom(text: &str, kind: &'static str) -> (String, Option<&'static str>) {
    (text.to_string(), Some(kind))
}

fn op(text: &str) -> (String, Option<&'static str>) {
    (text.to_string(), None)
}

#[test]
fn numbers() {
    assert_eq!(tokens("0 12 3.25"), vec![atom("0", "number"), atom("12", "number"), atom("3.25", "number")]);
    assert_eq!(tokens("1.x"), vec![atom("1", "number"), op("."), atom("x", "id")]);
    assert_eq!(tokens("1.2.3"), vec![atom("1.2", "number"), op("."), atom("3", "number")]);
    assert_eq!(tokens("-5"), vec![op("-"), atom("5", "number")]);
    assert_eq!(tokens("7e3"), vec![atom("7", "number"), atom("e3", "id")]);
}

#[test]
fn words() {
    assert_eq!(
        tokens("true false unit x _y z1 été"),
        vec![
            atom("true", "bool"),
            atom("false", "bool"),
            atom("unit", "unit"),
            atom("x", "id"),
            atom("_y", "id"),
            atom("z1", "id"),
            atom("été", "id"),
        ]
    );
    assert_eq!(tokens("truest units iff"), vec![atom("truest", "id"), atom("units", "id"), atom("iff", "id")]);
}

#[test]
fn a_word_at_the_end_of_the_text() {
    assert_eq!(tokens("abc"), vec![atom("abc", "id")]);
    assert_eq!(tokens("end"), vec![op("end")]);
}

#[test]
fn every_keyword_is_an_operator() {
    let all = [
        "var", "and", "or", "not", "xor", "to", "do", "end", "if", "then", "else", "match",
        "with", "loop", "break", "function", "type", "record", "trait",
    ];
    for word in all {
        assert!(is_keyword(word));
        assert_eq!(tokens(word), vec![op(word)]);
    }
    for word in ["true", "false", "unit", "x", "", "If", "ends"] {
        assert!(!is_keyword(word));
    }
}

#[test]
fn punctuation() {
    for c in "+-*/%^<>=,.:!?()[]{}".chars() {
        assert!(is_punctuation(c));
        assert_eq!(tokens(&c.to_string()), vec![op(&c.to_string())]);
    }
    for c in "@#$&|~;'\"\\`a1_ ".chars() {
        assert!(!is_punctuation(c));
    }
}

#[test]
fn two_character_operators_come_first() {
    assert_eq!(tokens(">= <= == > < ="), vec![op(">="), op("<="), op("=="), op(">"), op("<"), op("=")]);
    assert_eq!(tokens("==="), vec![op("=="), op("=")]);
    assert_eq!(tokens(">=="), vec![op(">="), op("=")]);
    assert_eq!(tokens("=>"), vec![op("="), op(">")]);
    assert_eq!(tokens("a<=b"), vec![atom("a", "id"), op("<="), atom("b", "id")]);
    assert_eq!(tokens("!="), vec![op("!"), op("=")]);
}

#[test]
fn text_literals() {
    assert_eq!(tokens("\"\""), vec![atom("\"\"", "text")]);
    assert_eq!(tokens("\"a b\" c"), vec![atom("\"a b\"", "text"), atom("c", "id")]);
    assert_eq!(tokens("\"a\\\"b\""), vec![atom("\"a\\\"b\"", "text")]);
    assert_eq!(tokens("\"a\\\\\"b"), vec![atom("\"a\\\\\"", "text"), atom("b", "id")]);
    assert_eq!(tokens("\"line\nbreak\""), vec![atom("\"line\nbreak\"", "text")]);
    assert_eq!(tokens("\"esc\\\nnl\""), vec![atom("\"esc\\\nnl\"", "text")]);
    assert_eq!(tokens("\"# no comment\""), vec![atom("\"# no comment\"", "text")]);
}

#[test]
fn white_space_and_comments_are_skipped() {
    assert_eq!(tokens("  a\t\n b \r\n"), vec![atom("a", "id"), atom("b", "id")]);
    assert_eq!(tokens("a # b c\nd"), vec![atom("a", "id"), atom("d", "id")]);
    assert_eq!(tokens("# one\n  # two\n\nx # three"), vec![atom("x", "id")]);
    assert_eq!(tokens("\u{a0}a\u{2003}b"), vec![atom("a", "id"), atom("b", "id")]);
    assert_eq!(tokens(""), vec![]);
    assert_eq!(tokens("   "), vec![]);
    assert_eq!(tokens("#"), vec![]);
    assert_eq!(skip_trivia("  # c\n\t x y"), "x y");
    assert_eq!(skip_trivia("x  "), "x  ");
    assert_eq!(skip_line("abc\ndef\n"), "def\n");
    assert_eq!(skip_line("abc"), "");
    assert_eq!(skip_line("\nabc"), "abc");
}

#[test]
fn a_bad_character_stops_the_lexer() {
    let mut lexer = Lexer::new("a @ b");
    assert!(matches!(lexer.next(), Ok(Some(Token::Atom("a", "id")))));
    assert!(matches!(lexer.peek(), Err(ParseError::BadCharacter('@'))));
    assert!(matches!(lexer.next(), Err(ParseError::BadCharacter('@'))));
    assert!(matches!(lexer.next(), Err(ParseError::BadCharacter('@'))));
    for (src, bad) in [("$", '$'), ("~x", '~'), ("'a'", '\''), ("a;b", ';'), ("\\", '\\'), ("&&", '&'), ("|", '|')] {
        let mut lexer = Lexer::new(src);
        loop {
            match lexer.next() {
                Ok(Some(_)) => {}
                Ok(None) => panic!("{src:?} lexed to the end"),
                Err(e) => {
                    assert!(matches!(e, ParseError::BadCharacter(c) if c == bad));
                    break;
                }
            }
        }
    }
}

#[test]
fn a_literal_that_does_not_match_its_grammar_is_a_bad_character() {
    assert!(matches!(Lexer::new("\"open").next(), Err(ParseError::BadCharacter('"'))));
    assert!(matches!(Lexer::new("\"open\\\"").next(), Err(ParseError::BadCharacter('"'))));
    assert!(matches!(Lexer::new("\u{bd}").next(), Err(ParseError::BadCharacter('\u{bd}'))));
    assert!(matches!(Lexer::new("\u{2167}").next(), Err(ParseError::BadCharacter('\u{2167}'))));
}

#[test]
fn digits_of_other_scripts_are_numbers() {
    assert_eq!(tokens("\u{663}\u{664}"), vec![atom("\u{663}\u{664}", "number")]);
}

#[test]
fn peek_does_not_advance() {
    let mut lexer = Lexer::new("a + b");
    assert!(matches!(lexer.peek(), Ok(Some(Token::Atom("a", "id")))));
    assert!(matches!(lexer.peek(), Ok(Some(Token::Atom("a", "id")))));
    assert!(matches!(lexer.next(), Ok(Some(Token::Atom("a", "id")))));
    assert!(matches!(lexer.peek(), Ok(Some(Token::Op("+")))));
    assert!(matches!(lexer.next(), Ok(Some(Token::Op("+")))));
    assert!(matches!(lexer.next(), Ok(Some(Token::Atom("b", "id")))));
    assert!(matches!(lexer.peek(), Ok(None)));
    assert!(matches!(lexer.peek(), Ok(None)));
    assert!(matches!(lexer.next(), Ok(None)));
    assert!(matches!(lexer.next(), Ok(None)));
}

#[test]
fn token_text() {
    assert_eq!(Token::Atom("12", "number").text(), "12");
    assert_eq!(Token::Op("==").text(), "==");
}

#[test]
fn token_at_the_start_of_a_text() {
    assert!(matches!(token(""), Ok(None)));
    assert!(matches!(token("ab cd"), Ok(Some((Token::Atom("ab", "id"), " cd")))));
    assert!(matches!(token("12+3"), Ok(Some((Token::Atom("12", "number"), "+3")))));
    assert!(matches!(token(">=1"), Ok(Some((Token::Op(">="), "1")))));
    assert!(matches!(token("\"s\"t"), Ok(Some((Token::Atom("\"s\"", "text"), "t")))));
    assert!(matches!(token("if x"), Ok(Some((Token::Op("if"), " x")))));
    assert!(matches!(token(" x"), Err(ParseError::BadCharacter(' '))));
    assert!(matches!(token("#x"), Err(ParseError::BadCharacter('#'))));
}

#[test]
fn scan_cuts_a_word() {
    assert_eq!(scan("abc def"), ("abc", " def"));
    assert_eq!(scan("a1_b2+c"), ("a1_b2", "+c"));
    assert_eq!(scan("x"), ("x", ""));
    assert_eq!(scan("_"), ("_", ""));
    assert_eq!(scan("ça va"), ("ça", " va"));
    assert_eq!(scan("名前=1"), ("名前", "=1"));
}

#[test]
fn word_tokens() {
    assert!(matches!(word_token("true"), Token::Atom("true", "bool")));
    assert!(matches!(word_token("false"), Token::Atom("false", "bool")));
    assert!(matches!(word_token("unit"), Token::Atom("unit", "unit")));
    assert!(matches!(word_token("loop"), Token::Op("loop")));
    assert!(matches!(word_token("lo"), Token::Atom("lo", "id")));
}

#[test]
fn patterns_match_at_the_start_only() {
    assert_eq!(number("12.5+x"), Some(("12.5", "+x")));
    assert_eq!(number("7"), Some(("7", "")));
    assert_eq!(number("x7"), None);
    assert_eq!(number(""), None);
    assert_eq!(number(".5"), None);
    assert_eq!(operator("==="), Some(("==", "=")));
    assert_eq!(operator("<x"), Some(("<", "x")));
    assert_eq!(operator("x<"), None);
    assert_eq!(operator("@+"), None);
    assert_eq!(text("\"a\"b"), Some(("\"a\"", "b")));
    assert_eq!(text("b\"a\""), None);
    assert_eq!(text("\"a"), None);
    assert_eq!(number("٤٢ is"), Some(("٤٢", " is")));
    assert_eq!(text("\"é\"+"), Some(("\"é\"", "+")));
    assert_eq!(operator(""), None);
}

#[test]
fn at_start_keeps_a_match_that_is_first_and_not_empty() {
    assert_eq!(at_start(Some(("", "ab", "c"))), Some(("ab", "c")));
    assert_eq!(at_start(Some(("x", "ab", "c"))), None);
    assert_eq!(at_start(Some(("", "", "abc"))), None);
    assert_eq!(at_start(Some(("", "abc", ""))), Some(("abc", "")));
    assert_eq!(at_start(None), None);
}

#[test]
fn text_helpers() {
    assert_eq!(first_char("abc"), Some(('a', "bc")));
    assert_eq!(first_char("é"), Some(('é', "")));
    assert_eq!(first_char(""), None);
    let whole = "héllo wörld";
    assert_eq!(before(whole, &whole[7..]), "héllo ");
    assert_eq!(before(whole, whole), "");
    assert_eq!(before(whole, ""), whole);
    assert!(same_text("abc", "abc"));
    assert!(same_text("", ""));
    assert!(!same_text("abc", "abd"));
    assert!(!same_text("abc", "ab"));
    assert!(!same_text("é", "e"));
}
