//! The parser: an operator-precedence expression parser over a [`Lexer`],
//! and the productions for blocks, conditionals, matches and lists.
//!
//! Each function reads what its production in [`crate::grammar`] describes
//! and leaves the lexer behind it. The first failure stops the parse: it is
//! handed up unchanged, and nothing is said of where the lexer then stands.

use crate::expr::{lemma_trees, lemma_trees_push, rendered, trees, Expr, Tree};
use crate::grammar;
use crate::grammar::{
    eaten, lemma_block_progress, lemma_call_progress, lemma_match_arm_progress, lemma_progress,
    skipped, Parsed,
};
use crate::text::same_text;
use crate::token::{Failure, Lexer, ParseError, Stream, Token};
use vstd::prelude::*;

verus! {

/// Whether `r`, with the lexer left at `after`, is what the grammar gives.
pub open spec fn reads(r: Result<Expr, ParseError>, after: Stream, expected: Parsed) -> bool {
    match expected {
        Ok((tree, rest)) => r matches Ok(e) && e@ == tree && after == rest,
        Err(f) => r matches Err(e) && e@ == f,
    }
}

/// Whether `r`, with the lexer left at `after`, is the step that the grammar
/// gives.
pub open spec fn steps(
    r: Result<(), ParseError>,
    after: Stream,
    expected: Result<Stream, Failure>,
) -> bool {
    match expected {
        Ok(rest) => r is Ok && after == rest,
        Err(f) => r matches Err(e) && e@ == f,
    }
}

/// Moves past the next token, whatever it is.
pub fn skip<'a>(lexer: &mut Lexer<'a>) -> (r: Result<(), ParseError<'a>>)
    ensures
        steps(r, final(lexer)@, skipped(old(lexer)@)),
{
    match lexer.next()? {
        Some(_) => Ok(()),
        None => Err(ParseError::EndOfInput),
    }
}

/// Moves past the next token, which must be the operator `text`.
pub fn eat<'a>(lexer: &mut Lexer<'a>, text: &str) -> (r: Result<(), ParseError<'a>>)
    ensures
        steps(r, final(lexer)@, eaten(old(lexer)@, text@)),
{
    match lexer.next()? {
        Some(token) => if token.is_op(text) {
            Ok(())
        } else {
            Err(ParseError::BadToken(token))
        },
        None => Err(ParseError::EndOfInput),
    }
}

/// A node with the tag `name` and the parts `parts`.
pub fn prod(name: &str, parts: Vec<Expr>) -> (node: Expr)
    ensures
        node@ == Tree::Cons(name@, trees(parts@)),
{
    Expr::Cons(name.to_owned(), parts)
}

/// The binding powers of the infix operator `op`.
pub fn infix_power(op: &str) -> (power: Option<(usize, usize)>)
    ensures
        match power {
            Some((left, right)) => grammar::infix_power(op@) == Some((left as nat, right as nat)),
            None => grammar::infix_power(op@) is None,
        },
{
    if same_text(op, "=") {
        Some((4, 3))
    } else if same_text(op, ":") {
        Some((5, 6))
    } else if same_text(op, "to") {
        Some((7, 8))
    } else if same_text(op, "or") {
        Some((9, 10))
    } else if same_text(op, "xor") {
        Some((11, 12))
    } else if same_text(op, "and") {
        Some((13, 14))
    } else if same_text(op, "==") {
        Some((15, 16))
    } else if same_text(op, ">") || same_text(op, "<") || same_text(op, ">=") || same_text(
        op,
        "<=",
    ) {
        Some((17, 18))
    } else if same_text(op, "+") || same_text(op, "-") {
        Some((19, 20))
    } else if same_text(op, "*") || same_text(op, "/") {
        Some((21, 22))
    } else if same_text(op, "(") {
        Some((23, 24))
    } else if same_text(op, ".") {
        Some((28, 29))
    } else {
        None
    }
}

/// The power at which the operand of the prefix operator `op` is read.
pub fn unary_power(op: &str) -> (power: Option<usize>)
    ensures
        match power {
            Some(p) => grammar::unary_power(op@) == Some(p as nat),
            None => grammar::unary_power(op@) is None,
        },
{
    if same_text(op, "-") || same_text(op, "not") {
        Some(23)
    } else if same_text(op, "var") {
        Some(1)
    } else {
        None
    }
}

/// A vector that holds `a` alone.
fn one(a: Expr) -> (parts: Vec<Expr>)
    ensures
        trees(parts@) == seq![a@],
{
    let mut parts = Vec::new();
    parts.push(a);
    proof {
        lemma_trees(parts@);
        assert(trees(parts@) =~= seq![a@]);
    }
    parts
}

/// A vector that holds `a` and `b`.
fn two(a: Expr, b: Expr) -> (parts: Vec<Expr>)
    ensures
        trees(parts@) == seq![a@, b@],
{
    let mut parts = Vec::new();
    parts.push(a);
    parts.push(b);
    proof {
        lemma_trees(parts@);
        assert(trees(parts@) =~= seq![a@, b@]);
    }
    parts
}

/// A vector that holds `a`, `b` and `c`.
fn three(a: Expr, b: Expr, c: Expr) -> (parts: Vec<Expr>)
    ensures
        trees(parts@) == seq![a@, b@, c@],
{
    let mut parts = Vec::new();
    parts.push(a);
    parts.push(b);
    parts.push(c);
    proof {
        lemma_trees(parts@);
        assert(trees(parts@) =~= seq![a@, b@, c@]);
    }
    parts
}

/// Whether the next token is the operator `text`. At the end of the text it
/// is not.
fn next_is<'a>(lexer: &mut Lexer<'a>, text: &str) -> (r: Result<bool, ParseError<'a>>)
    ensures
        final(lexer)@ == old(lexer)@,
        match old(lexer)@.first() {
            Ok(Some(t)) => r == Ok::<bool, ParseError<'a>>(t.is_op(text@)),
            Ok(None) => r == Ok::<bool, ParseError<'a>>(false),
            Err(f) => r matches Err(e) && e@ == f,
        },
{
    match lexer.peek()? {
        Some(token) => Ok(token.is_op(text)),
        None => Ok(false),
    }
}

/// An expression.
pub fn expr<'a>(lexer: &mut Lexer<'a>) -> (r: Result<Expr, ParseError<'a>>)
    ensures
        reads(r, final(lexer)@, grammar::expr_bp(old(lexer)@, 0)),
    decreases old(lexer)@.tokens.len(), 2nat,
{
    expr_bp(lexer, 0)
}

/// An expression whose infix operators all have a left power of at least
/// `min_power`.
pub fn expr_bp<'a>(lexer: &mut Lexer<'a>, min_power: usize) -> (r: Result<Expr, ParseError<'a>>)
    ensures
        reads(r, final(lexer)@, grammar::expr_bp(old(lexer)@, min_power as nat)),
    decreases old(lexer)@.tokens.len(), 1nat,
{
    let ghost start = lexer@;
    let ghost min = min_power as nat;
    proof {
        lemma_progress(start, min);
    }
    let mut left = primary(lexer)?;
    loop
        invariant
            start == old(lexer)@,
            min == min_power as nat,
            grammar::infix_loop(left@, lexer@, min) == grammar::expr_bp(start, min),
            lexer@.tokens.len() < start.tokens.len(),
        ensures
            grammar::expr_bp(start, min) == Ok::<(Tree, Stream), Failure>((left@, lexer@)),
        decreases lexer@.tokens.len(),
    {
        let op = match lexer.peek()? {
            Some(token) => match *token {
                Token::Op(op) => op,
                Token::Atom(_, _) => {
                    break ;
                },
            },
            None => {
                break ;
            },
        };
        let (left_power, right_power) = match infix_power(op) {
            Some(power) => power,
            None => {
                break ;
            },
        };
        if left_power < min_power {
            break ;
        }
        lexer.next()?;
        if same_text(op, "(") {
            proof {
                lemma_call_progress(rendered(left@), lexer@);
            }
            left = call(lexer, &left)?;
        } else {
            proof {
                lemma_progress(lexer@, right_power as nat);
            }
            let right = expr_bp(lexer, right_power)?;
            left = prod(op, two(left, right));
        }
    }
    Ok(left)
}

/// The start of an expression.
pub fn primary<'a>(lexer: &mut Lexer<'a>) -> (r: Result<Expr, ParseError<'a>>)
    ensures
        reads(r, final(lexer)@, grammar::primary(old(lexer)@)),
    decreases old(lexer)@.tokens.len(), 0nat,
{
    let token = match lexer.next()? {
        Some(token) => token,
        None => {
            return Err(ParseError::EndOfInput);
        },
    };
    match token {
        Token::Atom(text, kind) => Ok(Expr::Atom(text.to_owned(), kind)),
        Token::Op(op) => {
            match unary_power(op) {
                Some(power) => {
                    let operand = expr_bp(lexer, power)?;
                    return Ok(prod(op, one(operand)));
                },
                None => {},
            }
            if same_text(op, "(") {
                let inner = seq(lexer)?;
                eat(lexer, ")")?;
                Ok(inner)
            } else if same_text(op, "[") {
                let inner = list(lexer)?;
                eat(lexer, "]")?;
                Ok(inner)
            } else if same_text(op, "{") {
                let inner = table(lexer)?;
                eat(lexer, "}")?;
                Ok(inner)
            } else if same_text(op, "do") {
                let body = do_block(lexer)?;
                skip(lexer)?;
                Ok(body)
            } else if same_text(op, "if") {
                if_form(lexer)
            } else if same_text(op, "match") {
                match_form(lexer)
            } else if same_text(op, "loop") {
                let body = do_block(lexer)?;
                skip(lexer)?;
                Ok(prod("loop", one(body)))
            } else if same_text(op, "break") {
                Ok(prod("break", Vec::new()))
            } else if same_text(op, "function") {
                function_form(lexer)
            } else {
                Err(ParseError::BadToken(token))
            }
        },
    }
}

/// The arguments of a call of `callee` and its closing parenthesis.
pub fn call<'a>(lexer: &mut Lexer<'a>, callee: &Expr) -> (r: Result<Expr, ParseError<'a>>)
    ensures
        reads(r, final(lexer)@, grammar::call(rendered(callee@), old(lexer)@)),
    decreases old(lexer)@.tokens.len(), 5nat,
{
    let args = params(lexer)?;
    eat(lexer, ")")?;
    let name = callee.render();
    Ok(prod(name.as_str(), one(args)))
}

/// A list of expressions with commas between them, under the tag `name`;
/// an empty one where the token `close` comes first.
pub fn comma<'a>(lexer: &mut Lexer<'a>, name: &str, close: &str) -> (r: Result<
    Expr,
    ParseError<'a>,
>)
    ensures
        reads(r, final(lexer)@, grammar::comma(old(lexer)@, name@, close@)),
    decreases old(lexer)@.tokens.len(), 3nat,
{
    let ghost start = lexer@;
    if next_is(lexer, close)? {
        return Ok(prod(name, Vec::new()));
    }
    proof {
        lemma_progress(start, 0);
    }
    let first = expr(lexer)?;
    let ghost goal = grammar::comma_more(seq![first@], lexer@);
    let mut items = one(first);
    loop
        invariant
            start == old(lexer)@,
            grammar::comma(start, name@, close@) == match goal {
                Ok((items, rest)) => Ok::<(Tree, Stream), Failure>((Tree::Cons(name@, items), rest)),
                Err(f) => Err(f),
            },
            grammar::comma_more(trees(items@), lexer@) == goal,
            lexer@.tokens.len() < start.tokens.len(),
        ensures
            goal == Ok::<(Seq<Tree>, Stream), Failure>((trees(items@), lexer@)),
        decreases lexer@.tokens.len(),
    {
        if !next_is(lexer, ",")? {
            break ;
        }
        lexer.next()?;
        proof {
            lemma_progress(lexer@, 0);
        }
        let item = expr(lexer)?;
        proof {
            lemma_trees_push(items@, item);
        }
        items.push(item);
    }
    Ok(prod(name, items))
}

/// What stands between parentheses: a list, or the one expression that the
/// list holds.
pub fn seq<'a>(lexer: &mut Lexer<'a>) -> (r: Result<Expr, ParseError<'a>>)
    ensures
        reads(r, final(lexer)@, grammar::group(grammar::comma(old(lexer)@, "seq"@, ")"@))),
    decreases old(lexer)@.tokens.len(), 4nat,
{
    match comma(lexer, "seq", ")")? {
        Expr::Cons(tag, parts) => {
            let mut parts = parts;
            if parts.len() == 1 {
                proof {
                    lemma_trees(parts@);
                }
                match parts.pop() {
                    Some(only) => Ok(only),
                    None => Ok(Expr::Cons(tag, parts)),
                }
            } else {
                proof {
                    lemma_trees(parts@);
                }
                Ok(Expr::Cons(tag, parts))
            }
        },
        atom => Ok(atom),
    }
}

/// What stands between square brackets.
pub fn list<'a>(lexer: &mut Lexer<'a>) -> (r: Result<Expr, ParseError<'a>>)
    ensures
        reads(r, final(lexer)@, grammar::comma(old(lexer)@, "list"@, "]"@)),
    decreases old(lexer)@.tokens.len(), 4nat,
{
    comma(lexer, "list", "]")
}

/// What stands between braces.
pub fn table<'a>(lexer: &mut Lexer<'a>) -> (r: Result<Expr, ParseError<'a>>)
    ensures
        reads(r, final(lexer)@, grammar::comma(old(lexer)@, "table"@, "}"@)),
    decreases old(lexer)@.tokens.len(), 4nat,
{
    comma(lexer, "table", "}")
}

/// The arguments of a call.
pub fn params<'a>(lexer: &mut Lexer<'a>) -> (r: Result<Expr, ParseError<'a>>)
    ensures
        reads(r, final(lexer)@, grammar::comma(old(lexer)@, "params"@, ")"@)),
    decreases old(lexer)@.tokens.len(), 4nat,
{
    comma(lexer, "params", ")")
}

/// Expressions up to `end`, or up to `else` too where `or_else` holds. The
/// keyword stays in the lexer.
pub fn block<'a>(lexer: &mut Lexer<'a>, or_else: bool) -> (r: Result<Expr, ParseError<'a>>)
    ensures
        reads(r, final(lexer)@, grammar::block(old(lexer)@, or_else)),
    decreases old(lexer)@.tokens.len(), 3nat,
{
    let ghost start = lexer@;
    let mut items: Vec<Expr> = Vec::new();
    loop
        invariant
            start == old(lexer)@,
            grammar::block_items(trees(items@), lexer@, or_else) == grammar::block_items(
                seq![],
                start,
                or_else,
            ),
            lexer@.tokens.len() <= start.tokens.len(),
        ensures
            grammar::block_items(seq![], start, or_else) == Ok::<(Seq<Tree>, Stream), Failure>(
                (trees(items@), lexer@),
            ),
        decreases lexer@.tokens.len(),
    {
        let done = match lexer.peek()? {
            Some(token) => token.is_op("end") || (or_else && token.is_op("else")),
            None => true,
        };
        if done {
            break ;
        }
        proof {
            lemma_progress(lexer@, 0);
        }
        let item = expr(lexer)?;
        proof {
            lemma_trees_push(items@, item);
        }
        items.push(item);
    }
    Ok(prod("do", items))
}

/// Expressions up to `end`.
pub fn do_block<'a>(lexer: &mut Lexer<'a>) -> (r: Result<Expr, ParseError<'a>>)
    ensures
        reads(r, final(lexer)@, grammar::block(old(lexer)@, false)),
    decreases old(lexer)@.tokens.len(), 4nat,
{
    block(lexer, false)
}

/// Expressions up to `else` or `end`.
pub fn then_block<'a>(lexer: &mut Lexer<'a>) -> (r: Result<Expr, ParseError<'a>>)
    ensures
        reads(r, final(lexer)@, grammar::block(old(lexer)@, true)),
    decreases old(lexer)@.tokens.len(), 4nat,
{
    block(lexer, true)
}

/// What follows `if`.
pub fn if_form<'a>(lexer: &mut Lexer<'a>) -> (r: Result<Expr, ParseError<'a>>)
    ensures
        reads(r, final(lexer)@, grammar::if_form(old(lexer)@)),
    decreases old(lexer)@.tokens.len(), 5nat,
{
    proof {
        lemma_progress(lexer@, 0);
    }
    let cond = expr(lexer)?;
    skip(lexer)?;
    proof {
        lemma_block_progress(lexer@, true);
    }
    let then_body = then_block(lexer)?;
    let sep = match lexer.next()? {
        Some(token) => token,
        None => {
            return Err(ParseError::EndOfInput);
        },
    };
    if sep.is_op("else") {
        let else_body = do_block(lexer)?;
        skip(lexer)?;
        Ok(prod("if", three(cond, then_body, else_body)))
    } else {
        Ok(prod("if", two(cond, then_body)))
    }
}

/// What follows `match`.
pub fn match_form<'a>(lexer: &mut Lexer<'a>) -> (r: Result<Expr, ParseError<'a>>)
    ensures
        reads(r, final(lexer)@, grammar::match_form(old(lexer)@)),
    decreases old(lexer)@.tokens.len(), 5nat,
{
    proof {
        lemma_progress(lexer@, 0);
    }
    let scrutinee = expr(lexer)?;
    skip(lexer)?;
    let arms = match_arms(lexer)?;
    skip(lexer)?;
    Ok(prod("match", two(scrutinee, arms)))
}

/// The arms of a match, up to `end`, under the tag `with`.
pub fn match_arms<'a>(lexer: &mut Lexer<'a>) -> (r: Result<Expr, ParseError<'a>>)
    ensures
        match grammar::match_arms(seq![], old(lexer)@) {
            Ok((arms, rest)) => {
                &&& r matches Ok(e)
                &&& e@ == Tree::Cons("with"@, arms)
                &&& final(lexer)@ == rest
            },
            Err(f) => r matches Err(e) && e@ == f,
        },
    decreases old(lexer)@.tokens.len(), 3nat,
{
    let ghost start = lexer@;
    let mut arms: Vec<Expr> = Vec::new();
    loop
        invariant
            start == old(lexer)@,
            grammar::match_arms(trees(arms@), lexer@) == grammar::match_arms(seq![], start),
            lexer@.tokens.len() <= start.tokens.len(),
        ensures
            grammar::match_arms(seq![], start) == Ok::<(Seq<Tree>, Stream), Failure>(
                (trees(arms@), lexer@),
            ),
        decreases lexer@.tokens.len(),
    {
        let done = match lexer.peek()? {
            Some(token) => token.is_op("end"),
            None => true,
        };
        if done {
            break ;
        }
        proof {
            lemma_match_arm_progress(lexer@);
        }
        let arm = match_arm(lexer)?;
        proof {
            lemma_trees_push(arms@, arm);
        }
        arms.push(arm);
    }
    Ok(prod("with", arms))
}

/// One arm of a match, under the tag `case`.
pub fn match_arm<'a>(lexer: &mut Lexer<'a>) -> (r: Result<Expr, ParseError<'a>>)
    ensures
        reads(r, final(lexer)@, grammar::match_arm(old(lexer)@)),
    decreases old(lexer)@.tokens.len(), 2nat,
{
    skip(lexer)?;
    proof {
        lemma_progress(lexer@, 0);
    }
    let pattern = expr(lexer)?;
    skip(lexer)?;
    let body = expr(lexer)?;
    Ok(prod("case", two(pattern, body)))
}

/// What follows `function`.
pub fn function_form<'a>(lexer: &mut Lexer<'a>) -> (r: Result<Expr, ParseError<'a>>)
    ensures
        reads(r, final(lexer)@, grammar::function_form(old(lexer)@)),
    decreases old(lexer)@.tokens.len(), 5nat,
{
    proof {
        lemma_progress(lexer@, 0);
    }
    let params = expr(lexer)?;
    let body = do_block(lexer)?;
    skip(lexer)?;
    Ok(prod("function", two(params, body)))
}

/// Every expression that the lexer still holds, under the tag `do`. Where
/// this succeeds the lexer has yielded all its tokens and has reached the
/// end of the text.
pub fn program<'a>(lexer: &mut Lexer<'a>) -> (r: Result<Expr, ParseError<'a>>)
    ensures
        match grammar::program(old(lexer)@) {
            Ok(tree) => r matches Ok(e) && e@ == tree && final(lexer)@.tokens.len() == 0
                && final(lexer)@.bad is None,
            Err(f) => r matches Err(e) && e@ == f,
        },
{
    let ghost start = lexer@;
    let mut items: Vec<Expr> = Vec::new();
    loop
        invariant
            start == old(lexer)@,
            grammar::program_items(trees(items@), lexer@) == grammar::program_items(
                seq![],
                start,
            ),
        ensures
            grammar::program_items(seq![], start) == Ok::<Seq<Tree>, Failure>(trees(items@)),
            lexer@.tokens.len() == 0,
            lexer@.bad is None,
        decreases lexer@.tokens.len(),
    {
        if lexer.peek()?.is_none() {
            break ;
        }
        proof {
            lemma_progress(lexer@, 0);
        }
        let item = expr(lexer)?;
        proof {
            lemma_trees_push(items@, item);
        }
        items.push(item);
    }
    Ok(prod("do", items))
}

/// The tree of the source text `src`: its expressions, one after the other,
/// under the tag `do`.
pub fn parse<'a>(src: &'a str) -> (r: Result<Expr, ParseError<'a>>)
    ensures
        match grammar::parsed(src@) {
            Ok(tree) => r matches Ok(e) && e@ == tree,
            Err(f) => r matches Err(e) && e@ == f,
        },
{
    let mut lexer = Lexer::new(src);
    program(&mut lexer)
}

} // verus!
