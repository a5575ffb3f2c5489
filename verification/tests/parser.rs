use pratt::expr::Expr;
use pratt::parse::{expr, expr_bp, infix_power, parse, program, unary_power};
use pratt::token::{Lexer, ParseError, Token};

fn show(src: &str) -> String {
    match parse(src) {
        Ok(tree) => tree.render(),
        Err(e) => panic!("{src:?} failed: {e:?}"),
    }
}

fn one(src: &str) -> String {
    let mut lexer = Lexer::new(src);
    match expr(&mut lexer) {
        Ok(tree) => tree.render(),
        Err(e) => panic!("{src:?} failed: {e:?}"),
    }
}

#[test]
fn multiplication_binds_tighter_than_addition() {
    assert_eq!(one("1 + 2 * 3"), "(+ 1 (* 2 3))");
    assert_eq!(one("2 * 3 + 1"), "(+ (* 2 3) 1)");
    assert_eq!(show("1 + 2 * 3"), "(do (+ 1 (* 2 3)))");
}

#[test]
fn assignment_is_right_associative() {
    assert_eq!(one("a = b = 1"), "(= a (= b 1))");
}

#[test]
fn binary_operators_are_left_associative() {
    assert_eq!(one("1 - 2 - 3"), "(- (- 1 2) 3)");
    assert_eq!(one("a / b * c"), "(* (/ a b) c)");
    assert_eq!(one("a or b or c"), "(or (or a b) c)");
    assert_eq!(one("a to b to c"), "(to (to a b) c)");
    assert_eq!(one("a : b : c"), "(: (: a b) c)");
}

#[test]
fn negation_is_looser_than_member_access() {
    assert_eq!(one("-a.b"), "(- (. a b))");
}

#[test]
fn negation_is_tighter_than_multiplication() {
    assert_eq!(one("-2 * 3"), "(* (- 2) 3)");
    assert_eq!(one("-a + b"), "(+ (- a) b)");
    assert_eq!(one("not a and b"), "(and (not a) b)");
}

#[test]
fn negation_is_looser_than_a_call() {
    assert_eq!(one("-f(1)"), "(- (f (params 1)))");
}

#[test]
fn var_wraps_a_whole_assignment() {
    assert_eq!(one("var x = 1"), "(var (= x 1))");
    assert_eq!(one("var a = b = 2 + 3"), "(var (= a (= b (+ 2 3))))");
}

#[test]
fn grouping_overrides_precedence() {
    assert_eq!(one("(1 + 2) * 3"), "(* (+ 1 2) 3)");
}

#[test]
fn a_group_of_one_collapses() {
    assert_eq!(one("(1)"), "1");
    assert_eq!(one("(1, 2)"), "(seq 1 2)");
    assert_eq!(one("()"), "(seq)");
    assert_eq!(one("((a))"), "a");
}

#[test]
fn comparison_levels() {
    assert_eq!(one("a + 1 >= b * 2"), "(>= (+ a 1) (* b 2))");
    assert_eq!(one("a < b == c > d"), "(== (< a b) (> c d))");
    assert_eq!(one("a <= b and c == d or e"), "(or (and (<= a b) (== c d)) e)");
    assert_eq!(one("a xor b and c"), "(xor a (and b c))");
    assert_eq!(one("x = 1 to 10"), "(= x (to 1 10))");
    assert_eq!(one("x : t = 1"), "(= (: x t) 1)");
}

#[test]
fn lists_and_tables() {
    assert_eq!(one("[1, 2, 3]"), "(list 1 2 3)");
    assert_eq!(one("[]"), "(list)");
    assert_eq!(one("[1]"), "(list 1)");
    assert_eq!(one("{a = 1, b = 2}"), "(table (= a 1) (= b 2))");
    assert_eq!(one("{}"), "(table)");
    assert_eq!(one("[[1], (2, 3)]"), "(list (list 1) (seq 2 3))");
}

#[test]
fn a_call_is_tagged_with_the_text_of_its_callee() {
    assert_eq!(one("f(1, 2)"), "(f (params 1 2))");
    assert_eq!(one("f()"), "(f (params))");
    assert_eq!(one("a.b(c)"), "((. a b) (params c))");
    assert_eq!(one("f(1)(2)"), "((f (params 1)) (params 2))");
    assert_eq!(one("f(x) + 1"), "(+ (f (params x)) 1)");
}

#[test]
fn do_block() {
    assert_eq!(one("do 1 2 end"), "(do 1 2)");
    assert_eq!(one("do end"), "(do)");
    assert_eq!(one("do do a end end"), "(do (do a))");
}

#[test]
fn conditional_with_both_branches() {
    assert_eq!(one("if c then t else e end"), "(if c (do t) (do e))");
    assert_eq!(one("if a == b then x = 1 y = 2 else z end"), "(if (== a b) (do (= x 1) (= y 2)) (do z))");
}

#[test]
fn conditional_without_else() {
    assert_eq!(one("if c then t end"), "(if c (do t))");
    assert_eq!(one("if c then end"), "(if c (do))");
}

#[test]
fn nested_conditionals_stop_at_their_own_end() {
    assert_eq!(
        one("if a then if b then c end else d end"),
        "(if a (do (if b (do c))) (do d))"
    );
    assert_eq!(
        one("if a then b else if c then d else e end end"),
        "(if a (do b) (do (if c (do d) (do e))))"
    );
}

#[test]
fn the_token_behind_a_conditional_is_left() {
    let mut lexer = Lexer::new("if c then t else e end 7");
    assert_eq!(expr(&mut lexer).unwrap().render(), "(if c (do t) (do e))");
    assert!(matches!(lexer.next(), Ok(Some(Token::Atom("7", "number")))));
    assert!(matches!(lexer.next(), Ok(None)));
}

#[test]
fn match_with_arms() {
    assert_eq!(
        one("match x with if 1 then a if 2 then b end"),
        "(match x (with (case 1 a) (case 2 b)))"
    );
    assert_eq!(one("match x with end"), "(match x (with))");
}

#[test]
fn loop_and_break() {
    assert_eq!(one("loop break end"), "(loop (do (break)))");
    assert_eq!(one("loop x = x + 1 break end"), "(loop (do (= x (+ x 1)) (break)))");
    assert_eq!(one("break"), "(break)");
}

#[test]
fn function_literal() {
    assert_eq!(one("function (a, b) a + b end"), "(function (seq a b) (do (+ a b)))");
    assert_eq!(one("function x x end"), "(function x (do x))");
    assert_eq!(one("f = function (x) x * 2 end"), "(= f (function x (do (* x 2))))");
}

#[test]
fn a_program_is_a_sequence_of_expressions() {
    assert_eq!(show(""), "(do)");
    assert_eq!(show("1 2"), "(do 1 2)");
    assert_eq!(show("x = 1\ny = x + 2"), "(do (= x 1) (= y (+ x 2)))");
}

#[test]
fn comments_and_white_space_are_transparent() {
    assert_eq!(show("1 # comment\n+ 2"), show("1 + 2"));
    assert_eq!(show("1 # comment\n+ 2"), "(do (+ 1 2))");
    assert_eq!(show("  \t\n1\n\n+\r\n2  "), "(do (+ 1 2))");
    assert_eq!(show("# only a comment"), "(do)");
    assert_eq!(show("#a\n#b\n  #c\n1#d"), "(do 1)");
}

#[test]
fn atoms_keep_their_kind() {
    match parse("12 3.5 true false unit \"hi\" name").unwrap() {
        Expr::Cons(tag, parts) => {
            assert_eq!(tag, "do");
            let kinds: Vec<(&str, &str)> = parts
                .iter()
                .map(|p| match p {
                    Expr::Atom(text, kind) => (text.as_str(), *kind),
                    Expr::Cons(tag, _) => panic!("unexpected node {tag}"),
                })
                .collect();
            assert_eq!(
                kinds,
                vec![
                    ("12", "number"),
                    ("3.5", "number"),
                    ("true", "bool"),
                    ("false", "bool"),
                    ("unit", "unit"),
                    ("\"hi\"", "text"),
                    ("name", "id"),
                ]
            );
        }
        Expr::Atom(text, _) => panic!("unexpected atom {text}"),
    }
}

#[test]
fn a_stray_character_is_fatal() {
    assert!(matches!(parse("@"), Err(ParseError::BadCharacter('@'))));
    assert!(matches!(parse("1 + @"), Err(ParseError::BadCharacter('@'))));
    assert!(matches!(parse("1 @ 2"), Err(ParseError::BadCharacter('@'))));
    assert!(matches!(parse("a $ b"), Err(ParseError::BadCharacter('$'))));
    assert!(matches!(parse("do 1 ~"), Err(ParseError::BadCharacter('~'))));
}

#[test]
fn a_stray_character_inside_a_literal_or_comment_is_no_error() {
    assert_eq!(show("\"@\""), "(do \"@\")");
    assert_eq!(show("1 # @ $ ~\n"), "(do 1)");
}

#[test]
fn an_operator_without_operand_fails() {
    assert!(matches!(parse("+ +"), Err(ParseError::BadToken(Token::Op("+")))));
    assert!(matches!(parse("1 + *"), Err(ParseError::BadToken(Token::Op("*")))));
    assert!(matches!(parse(")"), Err(ParseError::BadToken(Token::Op(")")))));
    assert!(matches!(parse("end"), Err(ParseError::BadToken(Token::Op("end")))));
    assert!(matches!(parse("then"), Err(ParseError::BadToken(Token::Op("then")))));
    assert!(matches!(parse("1 , 2"), Err(ParseError::BadToken(Token::Op(",")))));
    let mut lexer = Lexer::new("+ +");
    assert!(expr(&mut lexer).is_err());
}

#[test]
fn a_missing_operand_or_terminator_fails() {
    assert!(matches!(parse("1 +"), Err(ParseError::EndOfInput)));
    assert!(matches!(parse("(1"), Err(ParseError::EndOfInput)));
    assert!(matches!(parse("[1, 2"), Err(ParseError::EndOfInput)));
    assert!(matches!(parse("[1,"), Err(ParseError::EndOfInput)));
    assert!(matches!(parse("do 1"), Err(ParseError::EndOfInput)));
    assert!(matches!(parse("if c then t"), Err(ParseError::EndOfInput)));
    assert!(matches!(parse("if c then t else e"), Err(ParseError::EndOfInput)));
    assert!(matches!(parse("if c"), Err(ParseError::EndOfInput)));
    assert!(matches!(parse("match x"), Err(ParseError::EndOfInput)));
    assert!(matches!(parse("match x with if 1 then"), Err(ParseError::EndOfInput)));
    assert!(matches!(parse("loop"), Err(ParseError::EndOfInput)));
    assert!(matches!(parse("function x"), Err(ParseError::EndOfInput)));
    assert!(matches!(parse("f(1"), Err(ParseError::EndOfInput)));
    assert!(matches!(parse("-"), Err(ParseError::EndOfInput)));
    assert!(matches!(parse("1."), Err(ParseError::EndOfInput)));
}

#[test]
fn a_wrong_closing_bracket_fails() {
    assert!(matches!(parse("(1]"), Err(ParseError::BadToken(Token::Op("]")))));
    assert!(matches!(parse("[1)"), Err(ParseError::BadToken(Token::Op(")")))));
    assert!(matches!(parse("{1 2}"), Err(ParseError::BadToken(Token::Atom("2", "number")))));
    assert!(matches!(parse("f(1 end"), Err(ParseError::BadToken(Token::Op("end")))));
}

#[test]
fn a_successful_program_leaves_no_token() {
    let mut lexer = Lexer::new("a = 1 f(a) [a, a]");
    let tree = program(&mut lexer).unwrap();
    assert_eq!(tree.render(), "(do (= a 1) (f (params a)) (list a a))");
    assert!(matches!(lexer.peek(), Ok(None)));
    assert!(matches!(lexer.next(), Ok(None)));
}

#[test]
fn minimum_power_stops_the_infix_loop() {
    let mut lexer = Lexer::new("1 + 2 * 3");
    assert_eq!(expr_bp(&mut lexer, 20).unwrap().render(), "1");
    assert!(matches!(lexer.next(), Ok(Some(Token::Op("+")))));
    let mut lexer = Lexer::new("1 * 2 + 3");
    assert_eq!(expr_bp(&mut lexer, 20).unwrap().render(), "(* 1 2)");
    assert!(matches!(lexer.next(), Ok(Some(Token::Op("+")))));
    let mut lexer = Lexer::new("1 * 2 + 3");
    assert_eq!(expr_bp(&mut lexer, 19).unwrap().render(), "(+ (* 1 2) 3)");
}

#[test]
fn binding_power_tables() {
    assert_eq!(infix_power("="), Some((4, 3)));
    assert_eq!(infix_power(":"), Some((5, 6)));
    assert_eq!(infix_power("to"), Some((7, 8)));
    assert_eq!(infix_power("or"), Some((9, 10)));
    assert_eq!(infix_power("xor"), Some((11, 12)));
    assert_eq!(infix_power("and"), Some((13, 14)));
    assert_eq!(infix_power("=="), Some((15, 16)));
    for op in [">", "<", ">=", "<="] {
        assert_eq!(infix_power(op), Some((17, 18)));
    }
    assert_eq!(infix_power("+"), Some((19, 20)));
    assert_eq!(infix_power("-"), Some((19, 20)));
    assert_eq!(infix_power("*"), Some((21, 22)));
    assert_eq!(infix_power("/"), Some((21, 22)));
    assert_eq!(infix_power("("), Some((23, 24)));
    assert_eq!(infix_power("."), Some((28, 29)));
    for op in ["%", "^", "!", "?", ",", ")", "not", "end", "x"] {
        assert_eq!(infix_power(op), None);
    }
    assert_eq!(unary_power("-"), Some(23));
    assert_eq!(unary_power("not"), Some(23));
    assert_eq!(unary_power("var"), Some(1));
    for op in ["+", "(", "if", "x"] {
        assert_eq!(unary_power(op), None);
    }
}
