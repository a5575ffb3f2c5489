//! The grammar, as functions from a stream of tokens to the tree that the
//! parser builds from it.
//!
//! Each production takes the stream at which it starts and gives the tree it
//! reads with the stream behind it, or the failure that stops the parse. A
//! production that follows another one starts where that one ended; so that
//! the definitions are well founded, each such step is written through
//! [`advancing`] or [`bounded`], which keep a result only if it did not grow
//! the stream. No production ever does ([`lemma_progress`]), so the two
//! change nothing.

use crate::expr::{rendered, Tree};
use crate::token::{tokens_of, Failure, Lexeme, Stream};
use vstd::prelude::*;

verus! {

/// What a production gives: a tree and the stream behind it, or a failure.
pub type Parsed = Result<(Tree, Stream), Failure>;

/// What a repeated production gives: the trees it has read so far and the
/// stream behind them, or a failure.
pub type Run = Result<(Seq<Tree>, Stream), Failure>;

/// The left and right binding powers of an infix operator. An operator
/// continues an expression where its left power is at least the power that
/// the expression was asked for; its right operand is read at its right
/// power.
pub open spec fn infix_power(op: Seq<char>) -> Option<(nat, nat)> {
    if op == "="@ {
        Some((4, 3))
    } else if op == ":"@ {
        Some((5, 6))
    } else if op == "to"@ {
        Some((7, 8))
    } else if op == "or"@ {
        Some((9, 10))
    } else if op == "xor"@ {
        Some((11, 12))
    } else if op == "and"@ {
        Some((13, 14))
    } else if op == "=="@ {
        Some((15, 16))
    } else if op == ">"@ || op == "<"@ || op == ">="@ || op == "<="@ {
        Some((17, 18))
    } else if op == "+"@ || op == "-"@ {
        Some((19, 20))
    } else if op == "*"@ || op == "/"@ {
        Some((21, 22))
    } else if op == "("@ {
        Some((23, 24))
    } else if op == "."@ {
        Some((28, 29))
    } else {
        None
    }
}

/// The power at which the operand of a prefix operator is read. Negation
/// binds tighter than multiplication and looser than a call; `var` binds
/// looser than assignment.
pub open spec fn unary_power(op: Seq<char>) -> Option<nat> {
    if op == "-"@ || op == "not"@ {
        Some(23)
    } else if op == "var"@ {
        Some(1)
    } else {
        None
    }
}

/// `r`, where it has moved past at least one token of `s`.
pub open spec fn advancing<T>(r: Result<(T, Stream), Failure>, s: Stream) -> Result<
    (T, Stream),
    Failure,
> {
    match r {
        Ok((_, rest)) => if rest.tokens.len() < s.tokens.len() {
            r
        } else {
            Err(Failure::EndOfInput)
        },
        Err(_) => r,
    }
}

/// `r`, where it has not moved back behind `s`.
pub open spec fn bounded<T>(r: Result<(T, Stream), Failure>, s: Stream) -> Result<
    (T, Stream),
    Failure,
> {
    match r {
        Ok((_, rest)) => if rest.tokens.len() <= s.tokens.len() {
            r
        } else {
            Err(Failure::EndOfInput)
        },
        Err(_) => r,
    }
}

/// Moves past one token, whatever it is. Fails where none is left.
pub open spec fn skipped(s: Stream) -> Result<Stream, Failure> {
    if s.tokens.len() > 0 {
        Ok(s.advance())
    } else {
        Err(s.exhausted())
    }
}

/// Moves past the operator `text`. Fails on any other token, and where none
/// is left.
pub open spec fn eaten(s: Stream, text: Seq<char>) -> Result<Stream, Failure> {
    if s.tokens.len() == 0 {
        Err(s.exhausted())
    } else if s.tokens[0].is_op(text) {
        Ok(s.advance())
    } else {
        Err(Failure::BadToken(s.tokens[0]))
    }
}

/// Whether a block ends before the token `t`.
pub open spec fn ends_block(t: Lexeme, or_else: bool) -> bool {
    t.is_op("end"@) || (or_else && t.is_op("else"@))
}

/// An expression: a primary, continued by every infix operator whose left
/// power is at least `min`.
pub open spec fn expr_bp(s: Stream, min: nat) -> Parsed
    decreases s.tokens.len(), 1nat,
{
    match advancing(primary(s), s) {
        Ok((left, rest)) => infix_loop(left, rest, min),
        Err(f) => Err(f),
    }
}

/// The start of an expression: an atom, a prefix operator with its operand,
/// a bracketed list, or one of the constructs that a keyword opens.
pub open spec fn primary(s: Stream) -> Parsed
    decreases s.tokens.len(), 0nat,
{
    if s.tokens.len() == 0 {
        Err(s.exhausted())
    } else {
        let rest = s.advance();
        match s.tokens[0] {
            Lexeme::Atom(text, kind) => Ok((Tree::Atom(text, kind), rest)),
            Lexeme::Op(op) => if unary_power(op) is Some {
                match expr_bp(rest, unary_power(op).unwrap()) {
                    Ok((operand, rest)) => Ok((Tree::Cons(op, seq![operand]), rest)),
                    Err(f) => Err(f),
                }
            } else if op == "("@ {
                closed_by(group(comma(rest, "seq"@, ")"@)), ")"@)
            } else if op == "["@ {
                closed_by(comma(rest, "list"@, "]"@), "]"@)
            } else if op == "{"@ {
                closed_by(comma(rest, "table"@, "}"@), "}"@)
            } else if op == "do"@ {
                ended(block(rest, false))
            } else if op == "if"@ {
                if_form(rest)
            } else if op == "match"@ {
                match_form(rest)
            } else if op == "loop"@ {
                wrapped("loop"@, ended(block(rest, false)))
            } else if op == "break"@ {
                Ok((Tree::Cons("break"@, seq![]), rest))
            } else if op == "function"@ {
                function_form(rest)
            } else {
                Err(Failure::BadToken(s.tokens[0]))
            },
        }
    }
}

/// The operators that follow `left`: each one whose left power is at least
/// `min` takes `left` as its first operand, and the loop goes on with the
/// node that this makes.
pub open spec fn infix_loop(left: Tree, s: Stream, min: nat) -> Parsed
    decreases s.tokens.len(), 0nat,
{
    match s.first() {
        Err(f) => Err(f),
        Ok(None) => Ok((left, s)),
        Ok(Some(Lexeme::Atom(_, _))) => Ok((left, s)),
        Ok(Some(Lexeme::Op(op))) => match infix_power(op) {
            None => Ok((left, s)),
            Some((left_power, right_power)) => if left_power < min {
                Ok((left, s))
            } else if op == "("@ {
                match bounded(call(rendered(left), s.advance()), s.advance()) {
                    Ok((node, rest)) => infix_loop(node, rest, min),
                    Err(f) => Err(f),
                }
            } else {
                match advancing(expr_bp(s.advance(), right_power), s.advance()) {
                    Ok((right, rest)) => infix_loop(Tree::Cons(op, seq![left, right]), rest, min),
                    Err(f) => Err(f),
                }
            },
        },
    }
}

/// The arguments of a call and its closing parenthesis, under the text of
/// the callee as the tag.
pub open spec fn call(callee: Seq<char>, s: Stream) -> Parsed
    decreases s.tokens.len(), 4nat,
{
    wrapped(callee, closed_by(comma(s, "params"@, ")"@), ")"@))
}

/// A list of expressions with commas between them, under `tag`. It is empty
/// where the operator `close` stands at its start.
pub open spec fn comma(s: Stream, tag: Seq<char>, close: Seq<char>) -> Parsed
    decreases s.tokens.len(), 3nat,
{
    if s.tokens.len() > 0 && s.tokens[0].is_op(close) {
        Ok((Tree::Cons(tag, seq![]), s))
    } else {
        match advancing(expr_bp(s, 0), s) {
            Ok((first, rest)) => match comma_more(seq![first], rest) {
                Ok((items, rest)) => Ok((Tree::Cons(tag, items), rest)),
                Err(f) => Err(f),
            },
            Err(f) => Err(f),
        }
    }
}

/// The rest of a list behind `items`: as long as a comma follows, one more
/// expression.
pub open spec fn comma_more(items: Seq<Tree>, s: Stream) -> Run
    decreases s.tokens.len(), 2nat,
{
    match s.first() {
        Err(f) => Err(f),
        Ok(None) => Ok((items, s)),
        Ok(Some(t)) => if t.is_op(","@) {
            match advancing(expr_bp(s.advance(), 0), s.advance()) {
                Ok((item, rest)) => comma_more(items.push(item), rest),
                Err(f) => Err(f),
            }
        } else {
            Ok((items, s))
        },
    }
}

/// A parenthesised list of exactly one expression is that expression.
pub open spec fn group(list: Parsed) -> Parsed {
    match list {
        Ok((Tree::Cons(_, items), rest)) => if items.len() == 1 {
            Ok((items[0], rest))
        } else {
            list
        },
        _ => list,
    }
}

/// `inner`, followed by the closing token `close`.
pub open spec fn closed_by(inner: Parsed, close: Seq<char>) -> Parsed {
    match inner {
        Ok((tree, rest)) => match eaten(rest, close) {
            Ok(rest) => Ok((tree, rest)),
            Err(f) => Err(f),
        },
        Err(f) => Err(f),
    }
}

/// `inner`, followed by one token that is passed over.
pub open spec fn ended(inner: Parsed) -> Parsed {
    match inner {
        Ok((tree, rest)) => match skipped(rest) {
            Ok(rest) => Ok((tree, rest)),
            Err(f) => Err(f),
        },
        Err(f) => Err(f),
    }
}

/// `inner` as the only part of a node with the tag `tag`.
pub open spec fn wrapped(tag: Seq<char>, inner: Parsed) -> Parsed {
    match inner {
        Ok((tree, rest)) => Ok((Tree::Cons(tag, seq![tree]), rest)),
        Err(f) => Err(f),
    }
}

/// A block: expressions up to the keyword `end`, or `else` where `or_else`
/// holds, or the end of the input. The keyword is left in the stream.
pub open spec fn block(s: Stream, or_else: bool) -> Parsed
    decreases s.tokens.len(), 3nat,
{
    match block_items(seq![], s, or_else) {
        Ok((items, rest)) => Ok((Tree::Cons("do"@, items), rest)),
        Err(f) => Err(f),
    }
}

/// The rest of a block behind `items`.
pub open spec fn block_items(items: Seq<Tree>, s: Stream, or_else: bool) -> Run
    decreases s.tokens.len(), 2nat,
{
    match s.first() {
        Err(f) => Err(f),
        Ok(None) => Ok((items, s)),
        Ok(Some(t)) => if ends_block(t, or_else) {
            Ok((items, s))
        } else {
            match advancing(expr_bp(s, 0), s) {
                Ok((item, rest)) => block_items(items.push(item), rest, or_else),
                Err(f) => Err(f),
            }
        },
    }
}

/// What follows `if`: a condition, a separator, a block up to `else` or
/// `end`, and behind `else` a second block and its `end`.
pub open spec fn if_form(s: Stream) -> Parsed
    decreases s.tokens.len(), 4nat,
{
    match advancing(expr_bp(s, 0), s) {
        Err(f) => Err(f),
        Ok((cond, rest)) => match skipped(rest) {
            Err(f) => Err(f),
            Ok(rest) => match bounded(block(rest, true), rest) {
                Err(f) => Err(f),
                Ok((then_body, rest)) => match rest.first() {
                    Err(f) => Err(f),
                    Ok(None) => Err(Failure::EndOfInput),
                    Ok(Some(t)) => if t.is_op("else"@) {
                        match ended(block(rest.advance(), false)) {
                            Ok((else_body, rest)) => Ok(
                                (Tree::Cons("if"@, seq![cond, then_body, else_body]), rest),
                            ),
                            Err(f) => Err(f),
                        }
                    } else {
                        Ok((Tree::Cons("if"@, seq![cond, then_body]), rest.advance()))
                    },
                },
            },
        },
    }
}

/// What follows `match`: the value that is matched, a separator, the arms
/// up to `end`, and that `end`.
pub open spec fn match_form(s: Stream) -> Parsed
    decreases s.tokens.len(), 4nat,
{
    match advancing(expr_bp(s, 0), s) {
        Err(f) => Err(f),
        Ok((scrutinee, rest)) => match skipped(rest) {
            Err(f) => Err(f),
            Ok(rest) => match match_arms(seq![], rest) {
                Err(f) => Err(f),
                Ok((arms, rest)) => match skipped(rest) {
                    Err(f) => Err(f),
                    Ok(rest) => Ok(
                        (Tree::Cons("match"@, seq![scrutinee, Tree::Cons("with"@, arms)]), rest),
                    ),
                },
            },
        },
    }
}

/// The arms of a match behind `arms`, up to `end` or the end of the input.
pub open spec fn match_arms(arms: Seq<Tree>, s: Stream) -> Run
    decreases s.tokens.len(), 3nat,
{
    match s.first() {
        Err(f) => Err(f),
        Ok(None) => Ok((arms, s)),
        Ok(Some(t)) => if t.is_op("end"@) {
            Ok((arms, s))
        } else {
            match advancing(match_arm(s), s) {
                Ok((arm, rest)) => match_arms(arms.push(arm), rest),
                Err(f) => Err(f),
            }
        },
    }
}

/// One arm of a match: a separator, a pattern, a separator, a body.
pub open spec fn match_arm(s: Stream) -> Parsed
    decreases s.tokens.len(), 2nat,
{
    match skipped(s) {
        Err(f) => Err(f),
        Ok(rest) => match advancing(expr_bp(rest, 0), rest) {
            Err(f) => Err(f),
            Ok((pattern, rest)) => match skipped(rest) {
                Err(f) => Err(f),
                Ok(rest) => match expr_bp(rest, 0) {
                    Err(f) => Err(f),
                    Ok((body, rest)) => Ok((Tree::Cons("case"@, seq![pattern, body]), rest)),
                },
            },
        },
    }
}

/// What follows `function`: the parameters, as one expression, then the
/// body, as a block, and its `end`.
pub open spec fn function_form(s: Stream) -> Parsed
    decreases s.tokens.len(), 4nat,
{
    match advancing(expr_bp(s, 0), s) {
        Err(f) => Err(f),
        Ok((params, rest)) => match ended(block(rest, false)) {
            Err(f) => Err(f),
            Ok((body, rest)) => Ok((Tree::Cons("function"@, seq![params, body]), rest)),
        },
    }
}

/// The expressions of a whole stream behind `items`.
pub open spec fn program_items(items: Seq<Tree>, s: Stream) -> Result<Seq<Tree>, Failure>
    decreases s.tokens.len(),
{
    match s.first() {
        Err(f) => Err(f),
        Ok(None) => Ok(items),
        Ok(Some(_)) => match advancing(expr_bp(s, 0), s) {
            Ok((item, rest)) => program_items(items.push(item), rest),
            Err(f) => Err(f),
        },
    }
}

/// The tree of a whole stream: its expressions, one after the other, under
/// the tag `do`.
pub open spec fn program(s: Stream) -> Result<Tree, Failure> {
    match program_items(seq![], s) {
        Ok(items) => Ok(Tree::Cons("do"@, items)),
        Err(f) => Err(f),
    }
}

/// The tree of a source text.
pub open spec fn parsed(src: Seq<char>) -> Result<Tree, Failure> {
    program(tokens_of(src))
}

/// `r` ends no further back than `s`, in the same text.
pub open spec fn within<T>(r: Result<(T, Stream), Failure>, s: Stream) -> bool {
    r matches Ok((_, rest)) ==> rest.tokens.len() <= s.tokens.len() && rest.bad == s.bad
}

/// `r` ends behind at least one token of `s`, in the same text.
pub open spec fn beyond<T>(r: Result<(T, Stream), Failure>, s: Stream) -> bool {
    r matches Ok((_, rest)) ==> rest.tokens.len() < s.tokens.len() && rest.bad == s.bad
}

/// An expression uses at least one token, and so does a primary: keeping
/// only a result that moves on keeps every result.
pub proof fn lemma_progress(s: Stream, min: nat)
    ensures
        beyond(expr_bp(s, min), s),
        beyond(primary(s), s),
        advancing(expr_bp(s, min), s) == expr_bp(s, min),
        advancing(primary(s), s) == primary(s),
    decreases s.tokens.len(), 1nat,
{
    lemma_primary_progress(s);
    match primary(s) {
        Ok((left, rest)) => {
            lemma_infix_progress(left, rest, min);
        },
        Err(_) => {},
    }
}

proof fn lemma_primary_progress(s: Stream)
    ensures
        beyond(primary(s), s),
    decreases s.tokens.len(), 0nat,
{
    if s.tokens.len() > 0 {
        let rest = s.advance();
        match s.tokens[0] {
            Lexeme::Atom(_, _) => {},
            Lexeme::Op(op) => {
                if unary_power(op) is Some {
                    lemma_progress(rest, unary_power(op).unwrap());
                    assert(beyond(primary(s), s));
                } else if op == "("@ {
                    lemma_comma_progress(rest, "seq"@, ")"@);
                    assert(beyond(primary(s), s));
                } else if op == "["@ {
                    lemma_comma_progress(rest, "list"@, "]"@);
                    assert(beyond(primary(s), s));
                } else if op == "{"@ {
                    lemma_comma_progress(rest, "table"@, "}"@);
                    assert(beyond(primary(s), s));
                } else if op == "do"@ {
                    lemma_block_progress(rest, false);
                    assert(beyond(primary(s), s));
                } else if op == "if"@ {
                    lemma_if_progress(rest);
                    assert(beyond(primary(s), s));
                } else if op == "match"@ {
                    lemma_match_progress(rest);
                    assert(beyond(primary(s), s));
                } else if op == "loop"@ {
                    lemma_block_progress(rest, false);
                    assert(beyond(primary(s), s));
                } else if op == "break"@ {
                    assert(beyond(primary(s), s));
                } else if op == "function"@ {
                    lemma_function_progress(rest);
                    assert(beyond(primary(s), s));
                } else {
                    assert(beyond(primary(s), s));
                }
            },
        }
    }
}

/// The operators behind an expression never move the stream back.
pub proof fn lemma_infix_progress(left: Tree, s: Stream, min: nat)
    ensures
        within(infix_loop(left, s, min), s),
    decreases s.tokens.len(), 0nat,
{
    match s.first() {
        Ok(Some(Lexeme::Op(op))) => {
            match infix_power(op) {
                Some((left_power, right_power)) => {
                    if left_power >= min {
                        let after = s.advance();
                        if op == "("@ {
                            lemma_call_progress(rendered(left), after);
                            match call(rendered(left), after) {
                                Ok((node, rest)) => {
                                    lemma_infix_progress(node, rest, min);
                                },
                                Err(_) => {},
                            }
                        } else {
                            lemma_progress(after, right_power);
                            match expr_bp(after, right_power) {
                                Ok((right, rest)) => {
                                    lemma_infix_progress(
                                        Tree::Cons(op, seq![left, right]),
                                        rest,
                                        min,
                                    );
                                },
                                Err(_) => {},
                            }
                        }
                    }
                },
                None => {},
            }
        },
        _ => {},
    }
}

/// A call uses at least its closing parenthesis.
pub proof fn lemma_call_progress(callee: Seq<char>, s: Stream)
    ensures
        beyond(call(callee, s), s),
    decreases s.tokens.len(), 4nat,
{
    lemma_comma_progress(s, "params"@, ")"@);
}

/// A list never moves the stream back.
pub proof fn lemma_comma_progress(s: Stream, tag: Seq<char>, close: Seq<char>)
    ensures
        within(comma(s, tag, close), s),
    decreases s.tokens.len(), 3nat,
{
    if !(s.tokens.len() > 0 && s.tokens[0].is_op(close)) {
        lemma_progress(s, 0);
        match expr_bp(s, 0) {
            Ok((first, rest)) => {
                lemma_comma_more_progress(seq![first], rest);
            },
            Err(_) => {},
        }
    }
}

/// The rest of a list never moves the stream back.
pub proof fn lemma_comma_more_progress(items: Seq<Tree>, s: Stream)
    ensures
        within(comma_more(items, s), s),
    decreases s.tokens.len(), 2nat,
{
    match s.first() {
        Ok(Some(t)) => {
            if t.is_op(","@) {
                lemma_progress(s.advance(), 0);
                match expr_bp(s.advance(), 0) {
                    Ok((item, rest)) => {
                        lemma_comma_more_progress(items.push(item), rest);
                    },
                    Err(_) => {},
                }
            }
        },
        _ => {},
    }
}

/// A block never moves the stream back.
pub proof fn lemma_block_progress(s: Stream, or_else: bool)
    ensures
        within(block(s, or_else), s),
    decreases s.tokens.len(), 3nat,
{
    lemma_block_items_progress(seq![], s, or_else);
}

/// The rest of a block never moves the stream back.
pub proof fn lemma_block_items_progress(items: Seq<Tree>, s: Stream, or_else: bool)
    ensures
        within(block_items(items, s, or_else), s),
    decreases s.tokens.len(), 2nat,
{
    match s.first() {
        Ok(Some(t)) => {
            if !ends_block(t, or_else) {
                lemma_progress(s, 0);
                match expr_bp(s, 0) {
                    Ok((item, rest)) => {
                        lemma_block_items_progress(items.push(item), rest, or_else);
                    },
                    Err(_) => {},
                }
            }
        },
        _ => {},
    }
}

/// A conditional uses at least one token behind `if`.
pub proof fn lemma_if_progress(s: Stream)
    ensures
        beyond(if_form(s), s),
    decreases s.tokens.len(), 4nat,
{
    lemma_progress(s, 0);
    match expr_bp(s, 0) {
        Ok((_, rest)) => {
            if rest.tokens.len() > 0 {
                let rest = rest.advance();
                lemma_block_progress(rest, true);
                match block(rest, true) {
                    Ok((_, rest)) => {
                        if rest.tokens.len() > 0 {
                            lemma_block_progress(rest.advance(), false);
                        }
                    },
                    Err(_) => {},
                }
            }
        },
        Err(_) => {},
    }
}

/// A match uses at least one token behind `match`.
pub proof fn lemma_match_progress(s: Stream)
    ensures
        beyond(match_form(s), s),
    decreases s.tokens.len(), 4nat,
{
    lemma_progress(s, 0);
    match expr_bp(s, 0) {
        Ok((_, rest)) => {
            if rest.tokens.len() > 0 {
                lemma_match_arms_progress(seq![], rest.advance());
            }
        },
        Err(_) => {},
    }
}

/// The arms of a match never move the stream back.
pub proof fn lemma_match_arms_progress(arms: Seq<Tree>, s: Stream)
    ensures
        within(match_arms(arms, s), s),
    decreases s.tokens.len(), 3nat,
{
    match s.first() {
        Ok(Some(t)) => {
            if !t.is_op("end"@) {
                lemma_match_arm_progress(s);
                match match_arm(s) {
                    Ok((arm, rest)) => {
                        lemma_match_arms_progress(arms.push(arm), rest);
                    },
                    Err(_) => {},
                }
            }
        },
        _ => {},
    }
}

/// An arm of a match uses at least one token.
pub proof fn lemma_match_arm_progress(s: Stream)
    ensures
        beyond(match_arm(s), s),
    decreases s.tokens.len(), 2nat,
{
    if s.tokens.len() > 0 {
        let rest = s.advance();
        lemma_progress(rest, 0);
        match expr_bp(rest, 0) {
            Ok((_, rest)) => {
                if rest.tokens.len() > 0 {
                    lemma_progress(rest.advance(), 0);
                }
            },
            Err(_) => {},
        }
    }
}

/// A function literal uses at least one token behind `function`.
pub proof fn lemma_function_progress(s: Stream)
    ensures
        beyond(function_form(s), s),
    decreases s.tokens.len(), 4nat,
{
    lemma_progress(s, 0);
    match expr_bp(s, 0) {
        Ok((_, rest)) => {
            lemma_block_progress(rest, false);
        },
        Err(_) => {},
    }
}

} // verus!
