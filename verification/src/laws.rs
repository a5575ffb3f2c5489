//! What holds of the lexer and of the grammar on every input.

use crate::expr::Tree;
use crate::grammar::{
    block, block_items, comma, comma_more, ends_block, expr_bp, infix_loop, infix_power,
    lemma_progress, parsed, primary, program, program_items, unary_power,
};
use crate::text::{numeric, xid_continue};
use crate::token::{
    after_line, after_trivia, blank, classify, lemma_after_advance, lemma_after_line,
    lemma_run_len_bound, punctuation, run_len, scan_from, tokens_of, word_len, word_start,
    Failure, Lexeme, Scanned, Stream,
};
use vstd::prelude::*;

verus! {

/// Every token is cut from the front of the text: behind the blanks and
/// comments that are passed over, the text is the token and then the rest.
/// So no token is empty, no two tokens overlap, and no character between two
/// tokens is lost other than to a blank or a comment.
pub proof fn law_token_is_cut_from_the_front(src: Seq<char>)
    ensures
        scan_from(src) matches Scanned::Tok(t, rest) ==> t.text().len() > 0 && after_trivia(src)
            == t.text() + rest,
{
    let s = after_trivia(src);
    if s.len() > 0 {
        lemma_run_len_bound(s.drop_first());
        let n = word_len(s) as int;
        assert(s.take(n) + s.skip(n) == s);
        assert(classify(s.take(n)).text() == s.take(n));
    }
}

/// Blanks and comments are passed over to the last: what is left starts with
/// neither.
pub proof fn law_trivia_is_passed_over(src: Seq<char>)
    ensures
        after_trivia(src).len() > 0 ==> !blank(after_trivia(src)[0]) && after_trivia(src)[0]
            != '#',
    decreases src.len(),
{
    if src.len() == 0 {
    } else if src[0] == '#' {
        lemma_after_line(src.drop_first());
        law_trivia_is_passed_over(after_line(src.drop_first()));
    } else if blank(src[0]) {
        law_trivia_is_passed_over(src.drop_first());
    }
}

/// A run is the longest there is: each of its characters has XID_Continue,
/// and the character behind it, if there is one, has not.
pub proof fn law_run_is_maximal(s: Seq<char>)
    ensures
        run_len(s) <= s.len(),
        forall|i: int| 0 <= i < run_len(s) ==> xid_continue(#[trigger] s[i]),
        run_len(s) < s.len() ==> !xid_continue(s[run_len(s) as int]),
    decreases s.len(),
{
    if s.len() > 0 && xid_continue(s[0]) {
        let tail = s.drop_first();
        law_run_is_maximal(tail);
        assert forall|i: int| 0 <= i < run_len(s) implies xid_continue(#[trigger] s[i]) by {
            if i > 0 {
                assert(s[i] == tail[i - 1]);
            }
        }
    }
}

/// Every token that the lexer yields is well formed: it is not empty, and an
/// atom is a number, a boolean, the unit value, a text or an identifier.
pub proof fn law_tokens_are_well_formed(src: Seq<char>)
    ensures
        scan_from(src) matches Scanned::Tok(t, _) ==> t.well_formed(),
{
    law_token_is_cut_from_the_front(src);
}

/// The first character of a token decides what the token can be: a number
/// starts with a numeric character, a text with a double quote, a boolean,
/// the unit value and an identifier with a character that starts a word, and
/// an operator with a punctuation character or, as a keyword is a word,
/// with a character that starts a word.
pub proof fn law_first_character_decides_the_kind(src: Seq<char>)
    ensures
        scan_from(src) matches Scanned::Tok(t, _) ==> {
            let c = t.text()[0];
            match t {
                Lexeme::Atom(_, kind) => {
                    &&& kind == "number"@ ==> numeric(c)
                    &&& kind == "text"@ ==> !numeric(c) && !word_start(c) && c == '"'
                    &&& kind == "bool"@ || kind == "unit"@ || kind == "id"@ ==> !numeric(c)
                        && word_start(c)
                },
                Lexeme::Op(_) => !numeric(c) && (word_start(c) || punctuation(c)),
            }
        },
{
    reveal_strlit("number");
    reveal_strlit("text");
    reveal_strlit("bool");
    reveal_strlit("unit");
    reveal_strlit("id");
    assert("number"@.len() == 6 && "text"@.len() == 4 && "bool"@.len() == 4 && "unit"@.len() == 4
        && "id"@.len() == 2);
    assert("text"@[0] == 't' && "bool"@[0] == 'b' && "unit"@[0] == 'u');
    law_token_is_cut_from_the_front(src);
    let s = after_trivia(src);
    match scan_from(src) {
        Scanned::Tok(t, rest) => {
            assert(s == t.text() + rest);
            assert(t.text()[0] == s[0]);
        },
        _ => {},
    }
}

/// Two texts that are the same behind their blanks and comments hold the
/// same tokens and parse alike.
pub proof fn lemma_same_behind_trivia(a: Seq<char>, b: Seq<char>)
    requires
        after_trivia(a) == after_trivia(b),
    ensures
        tokens_of(a) == tokens_of(b),
        parsed(a) == parsed(b),
{
}

/// Blanks before a text are transparent: the text holds the same tokens, and
/// parses to the same tree, with them as without.
pub proof fn law_blanks_are_transparent(blanks: Seq<char>, src: Seq<char>)
    requires
        forall|i: int| 0 <= i < blanks.len() ==> blank(#[trigger] blanks[i]),
    ensures
        after_trivia(blanks + src) == after_trivia(src),
        tokens_of(blanks + src) == tokens_of(src),
        parsed(blanks + src) == parsed(src),
    decreases blanks.len(),
{
    if blanks.len() == 0 {
        assert(blanks + src == src);
    } else {
        let tail = blanks.drop_first();
        assert((blanks + src).drop_first() == tail + src);
        assert((blanks + src)[0] == blanks[0]);
        assert forall|i: int| 0 <= i < tail.len() implies blank(#[trigger] tail[i]) by {
            assert(tail[i] == blanks[i + 1]);
        }
        law_blanks_are_transparent(tail, src);
    }
    lemma_same_behind_trivia(blanks + src, src);
}

/// What is left of a line that holds no line break before `src` is `src`.
proof fn lemma_after_line_of(body: Seq<char>, src: Seq<char>)
    requires
        forall|i: int| 0 <= i < body.len() ==> #[trigger] body[i] != '\n',
    ensures
        after_line(body + seq!['\n'] + src) == src,
    decreases body.len(),
{
    let line = body + seq!['\n'] + src;
    if body.len() == 0 {
        assert(line.drop_first() == src);
    } else {
        let tail = body.drop_first();
        assert(line[0] == body[0]);
        assert(line.drop_first() == tail + seq!['\n'] + src);
        assert forall|i: int| 0 <= i < tail.len() implies #[trigger] tail[i] != '\n' by {
            assert(tail[i] == body[i + 1]);
        }
        lemma_after_line_of(tail, src);
    }
}

/// A comment before a text is transparent: with the comment `# body` and the
/// line break that ends it, the text holds the same tokens and parses to
/// the same tree.
pub proof fn law_comments_are_transparent(body: Seq<char>, src: Seq<char>)
    requires
        forall|i: int| 0 <= i < body.len() ==> #[trigger] body[i] != '\n',
    ensures
        after_trivia(seq!['#'] + body + seq!['\n'] + src) == after_trivia(src),
        tokens_of(seq!['#'] + body + seq!['\n'] + src) == tokens_of(src),
        parsed(seq!['#'] + body + seq!['\n'] + src) == parsed(src),
{
    let text = seq!['#'] + body + seq!['\n'] + src;
    assert(text.drop_first() == body + seq!['\n'] + src);
    lemma_after_line_of(body, src);
    lemma_same_behind_trivia(text, src);
}

/// A character that begins no token is never passed over: where the text
/// behind blanks and comments starts with one, the lexer yields no token and
/// stops at that character, and the parse fails with it.
pub proof fn law_unknown_character_is_fatal(src: Seq<char>)
    requires
        after_trivia(src).len() > 0,
        !numeric(after_trivia(src)[0]),
        !word_start(after_trivia(src)[0]),
        after_trivia(src)[0] != '"',
        !punctuation(after_trivia(src)[0]),
    ensures
        tokens_of(src) == (Stream { tokens: seq![], bad: Some(after_trivia(src)[0]) }),
        parsed(src) == Err::<Tree, Failure>(Failure::BadCharacter(after_trivia(src)[0])),
{
}

/// The expressions of a stream that ends at a bad character never make a
/// program: the parse arrives at the character and fails.
pub proof fn law_bad_character_is_never_skipped(s: Stream)
    requires
        s.bad is Some,
    ensures
        program(s) is Err,
{
    lemma_items_before_bad_character(seq![], s);
}

proof fn lemma_items_before_bad_character(items: Seq<Tree>, s: Stream)
    requires
        s.bad is Some,
    ensures
        program_items(items, s) is Err,
    decreases s.tokens.len(),
{
    if s.tokens.len() > 0 {
        lemma_progress(s, 0);
        match expr_bp(s, 0) {
            Ok((item, rest)) => {
                lemma_items_before_bad_character(items.push(item), rest);
            },
            Err(_) => {},
        }
    }
}

/// A block stops before the keyword that ends it, and leaves it in the
/// stream: behind a block stands `end`, or `else` where the block may end
/// there, unless the input has ended.
pub proof fn law_block_stops_before_its_keyword(s: Stream, or_else: bool)
    ensures
        block(s, or_else) matches Ok((_, rest)) ==> rest.first() == Ok::<
            Option<Lexeme>,
            Failure,
        >(None) || (rest.tokens.len() > 0 && ends_block(rest.tokens[0], or_else)),
{
    lemma_block_items_stop(seq![], s, or_else);
}

proof fn lemma_block_items_stop(items: Seq<Tree>, s: Stream, or_else: bool)
    ensures
        block_items(items, s, or_else) matches Ok((_, rest)) ==> rest.first() == Ok::<
            Option<Lexeme>,
            Failure,
        >(None) || (rest.tokens.len() > 0 && ends_block(rest.tokens[0], or_else)),
    decreases s.tokens.len(),
{
    match s.first() {
        Ok(Some(t)) => {
            if !ends_block(t, or_else) {
                lemma_progress(s, 0);
                match expr_bp(s, 0) {
                    Ok((item, rest)) => {
                        lemma_block_items_stop(items.push(item), rest, or_else);
                    },
                    Err(_) => {},
                }
            }
        },
        _ => {},
    }
}

/// The characters of the operators and keywords that the grammar names.
pub proof fn lemma_operator_texts()
    ensures
        "="@.len() == 1 && "="@[0] == '=',
        ":"@.len() == 1 && ":"@[0] == ':',
        "to"@.len() == 2 && "to"@[0] == 't' && "to"@[1] == 'o',
        "or"@.len() == 2 && "or"@[0] == 'o' && "or"@[1] == 'r',
        "xor"@.len() == 3 && "xor"@[0] == 'x' && "xor"@[1] == 'o' && "xor"@[2] == 'r',
        "and"@.len() == 3 && "and"@[0] == 'a' && "and"@[1] == 'n' && "and"@[2] == 'd',
        "=="@.len() == 2 && "=="@[0] == '=' && "=="@[1] == '=',
        ">"@.len() == 1 && ">"@[0] == '>',
        "<"@.len() == 1 && "<"@[0] == '<',
        ">="@.len() == 2 && ">="@[0] == '>' && ">="@[1] == '=',
        "<="@.len() == 2 && "<="@[0] == '<' && "<="@[1] == '=',
        "+"@.len() == 1 && "+"@[0] == '+',
        "-"@.len() == 1 && "-"@[0] == '-',
        "*"@.len() == 1 && "*"@[0] == '*',
        "/"@.len() == 1 && "/"@[0] == '/',
        "("@.len() == 1 && "("@[0] == '(',
        ")"@.len() == 1 && ")"@[0] == ')',
        "."@.len() == 1 && "."@[0] == '.',
        ","@.len() == 1 && ","@[0] == ',',
        "not"@.len() == 3 && "not"@[0] == 'n' && "not"@[1] == 'o' && "not"@[2] == 't',
        "var"@.len() == 3 && "var"@[0] == 'v' && "var"@[1] == 'a' && "var"@[2] == 'r',
        "["@.len() == 1 && "["@[0] == '[',
        "]"@.len() == 1 && "]"@[0] == ']',
        "{"@.len() == 1 && "{"@[0] == '{',
        "}"@.len() == 1 && "}"@[0] == '}',
        "do"@.len() == 2 && "do"@[0] == 'd' && "do"@[1] == 'o',
        "if"@.len() == 2 && "if"@[0] == 'i' && "if"@[1] == 'f',
        "match"@.len() == 5 && "match"@[0] == 'm' && "match"@[1] == 'a' && "match"@[2] == 't' && "match"@[3] == 'c' && "match"@[4] == 'h',
        "loop"@.len() == 4 && "loop"@[0] == 'l' && "loop"@[1] == 'o' && "loop"@[2] == 'o' && "loop"@[3] == 'p',
        "break"@.len() == 5 && "break"@[0] == 'b' && "break"@[1] == 'r' && "break"@[2] == 'e' && "break"@[3] == 'a' && "break"@[4] == 'k',
        "function"@.len() == 8 && "function"@[0] == 'f' && "function"@[1] == 'u' && "function"@[2] == 'n' && "function"@[3] == 'c' && "function"@[4] == 't' && "function"@[5] == 'i' && "function"@[6] == 'o' && "function"@[7] == 'n',
        "end"@.len() == 3 && "end"@[0] == 'e' && "end"@[1] == 'n' && "end"@[2] == 'd',
        "else"@.len() == 4 && "else"@[0] == 'e' && "else"@[1] == 'l' && "else"@[2] == 's' && "else"@[3] == 'e',
{
    reveal_strlit("=");
    reveal_strlit(":");
    reveal_strlit("to");
    reveal_strlit("or");
    reveal_strlit("xor");
    reveal_strlit("and");
    reveal_strlit("==");
    reveal_strlit(">");
    reveal_strlit("<");
    reveal_strlit(">=");
    reveal_strlit("<=");
    reveal_strlit("+");
    reveal_strlit("-");
    reveal_strlit("*");
    reveal_strlit("/");
    reveal_strlit("(");
    reveal_strlit(")");
    reveal_strlit(".");
    reveal_strlit(",");
    reveal_strlit("not");
    reveal_strlit("var");
    reveal_strlit("[");
    reveal_strlit("]");
    reveal_strlit("{");
    reveal_strlit("}");
    reveal_strlit("do");
    reveal_strlit("if");
    reveal_strlit("match");
    reveal_strlit("loop");
    reveal_strlit("break");
    reveal_strlit("function");
    reveal_strlit("end");
    reveal_strlit("else");
}

/// Assignment alone is right associative: its right power is below its left
/// power. Every other infix operator reads its right operand one power above
/// its own left power, and so groups to the left.
pub proof fn law_associativity(op: Seq<char>)
    ensures
        infix_power(op) matches Some((left, right)) ==> if op == "="@ {
            right < left
        } else {
            right == left + 1
        },
{
    lemma_operator_texts();
}

/// An atom in first place is a primary of its own.
proof fn lemma_atom_is_primary(text: Seq<char>, kind: Seq<char>, rest: Stream)
    ensures
        primary(rest.after(Lexeme::Atom(text, kind))) == Ok::<(Tree, Stream), Failure>(
            (Tree::Atom(text, kind), rest),
        ),
{
    lemma_after_advance(rest, Lexeme::Atom(text, kind));
}

/// The stream that holds an atom, the operator `p`, an atom, the operator
/// `q`, an atom and nothing else.
pub open spec fn two_operators(
    a: (Seq<char>, Seq<char>),
    p: Seq<char>,
    b: (Seq<char>, Seq<char>),
    q: Seq<char>,
    c: (Seq<char>, Seq<char>),
) -> Stream {
    (Stream { tokens: seq![], bad: None }).after(Lexeme::Atom(c.0, c.1)).after(
        Lexeme::Op(q),
    ).after(Lexeme::Atom(b.0, b.1)).after(Lexeme::Op(p)).after(Lexeme::Atom(a.0, a.1))
}

/// Binding powers decide how two operators in a row group. In `a p b q c`
/// the second operator takes `b` where its left power is at least the right
/// power of the first, and the first operator then takes the node that this
/// makes; otherwise the first operator takes `b`, and the second takes the
/// node that this makes. So a higher power binds tighter, and of two
/// operators of one level the left one binds first unless its right power
/// is the lower.
pub proof fn law_powers_decide_grouping(
    a: (Seq<char>, Seq<char>),
    p: Seq<char>,
    b: (Seq<char>, Seq<char>),
    q: Seq<char>,
    c: (Seq<char>, Seq<char>),
)
    requires
        infix_power(p) is Some,
        infix_power(q) is Some,
        p != "("@,
        q != "("@,
    ensures
        expr_bp(two_operators(a, p, b, q, c), 0) == Ok::<(Tree, Stream), Failure>(
            (
                if infix_power(q).unwrap().0 >= infix_power(p).unwrap().1 {
                    Tree::Cons(
                        p,
                        seq![
                            Tree::Atom(a.0, a.1),
                            Tree::Cons(q, seq![Tree::Atom(b.0, b.1), Tree::Atom(c.0, c.1)]),
                        ],
                    )
                } else {
                    Tree::Cons(
                        q,
                        seq![
                            Tree::Cons(p, seq![Tree::Atom(a.0, a.1), Tree::Atom(b.0, b.1)]),
                            Tree::Atom(c.0, c.1),
                        ],
                    )
                },
                Stream { tokens: seq![], bad: None },
            ),
        ),
{
    let end = Stream { tokens: seq![], bad: None };
    let ta = Tree::Atom(a.0, a.1);
    let tb = Tree::Atom(b.0, b.1);
    let tc = Tree::Atom(c.0, c.1);
    let s5 = end.after(Lexeme::Atom(c.0, c.1));
    let s4 = s5.after(Lexeme::Op(q));
    let s3 = s4.after(Lexeme::Atom(b.0, b.1));
    let s2 = s3.after(Lexeme::Op(p));
    let s1 = s2.after(Lexeme::Atom(a.0, a.1));
    let (lp, rp) = infix_power(p).unwrap();
    let (lq, rq) = infix_power(q).unwrap();
    lemma_after_advance(end, Lexeme::Atom(c.0, c.1));
    lemma_after_advance(s5, Lexeme::Op(q));
    lemma_after_advance(s4, Lexeme::Atom(b.0, b.1));
    lemma_after_advance(s3, Lexeme::Op(p));
    lemma_after_advance(s2, Lexeme::Atom(a.0, a.1));
    lemma_atom_is_primary(c.0, c.1, end);
    lemma_atom_is_primary(b.0, b.1, s4);
    lemma_atom_is_primary(a.0, a.1, s2);
    // the last atom, read as the right operand of `q`
    assert(forall|left: Tree, min: nat|
        #[trigger] infix_loop(left, end, min) == Ok::<(Tree, Stream), Failure>((left, end)));
    assert(expr_bp(s5, rq) == Ok::<(Tree, Stream), Failure>((tc, end)));
    if lq >= rp {
        let inner = Tree::Cons(q, seq![tb, tc]);
        assert(infix_loop(tb, s4, rp) == infix_loop(inner, end, rp));
        assert(expr_bp(s3, rp) == Ok::<(Tree, Stream), Failure>((inner, end)));
        assert(infix_loop(ta, s2, 0) == infix_loop(Tree::Cons(p, seq![ta, inner]), end, 0));
    } else {
        let inner = Tree::Cons(p, seq![ta, tb]);
        assert(infix_loop(tb, s4, rp) == Ok::<(Tree, Stream), Failure>((tb, s4)));
        assert(expr_bp(s3, rp) == Ok::<(Tree, Stream), Failure>((tb, s4)));
        assert(infix_loop(ta, s2, 0) == infix_loop(inner, s4, 0));
        assert(infix_loop(inner, s4, 0) == infix_loop(Tree::Cons(q, seq![inner, tc]), end, 0));
    }
}

/// The stream that holds the operator `u`, an atom, the operator `q`, an
/// atom and nothing else.
pub open spec fn prefix_then_infix(
    u: Seq<char>,
    a: (Seq<char>, Seq<char>),
    q: Seq<char>,
    b: (Seq<char>, Seq<char>),
) -> Stream {
    (Stream { tokens: seq![], bad: None }).after(Lexeme::Atom(b.0, b.1)).after(
        Lexeme::Op(q),
    ).after(Lexeme::Atom(a.0, a.1)).after(Lexeme::Op(u))
}

/// The power of a prefix operator decides what its operand is. In `u a q b`
/// the infix operator `q` belongs to the operand of `u` where its left power
/// is at least the power of `u`; otherwise `u` takes `a` alone, and `q`
/// takes the node that this makes.
pub proof fn law_prefix_power_decides_operand(
    u: Seq<char>,
    a: (Seq<char>, Seq<char>),
    q: Seq<char>,
    b: (Seq<char>, Seq<char>),
)
    requires
        unary_power(u) is Some,
        infix_power(q) is Some,
        q != "("@,
    ensures
        expr_bp(prefix_then_infix(u, a, q, b), 0) == Ok::<(Tree, Stream), Failure>(
            (
                if infix_power(q).unwrap().0 >= unary_power(u).unwrap() {
                    Tree::Cons(
                        u,
                        seq![Tree::Cons(q, seq![Tree::Atom(a.0, a.1), Tree::Atom(b.0, b.1)])],
                    )
                } else {
                    Tree::Cons(
                        q,
                        seq![Tree::Cons(u, seq![Tree::Atom(a.0, a.1)]), Tree::Atom(b.0, b.1)],
                    )
                },
                Stream { tokens: seq![], bad: None },
            ),
        ),
{
    let end = Stream { tokens: seq![], bad: None };
    let ta = Tree::Atom(a.0, a.1);
    let tb = Tree::Atom(b.0, b.1);
    let s4 = end.after(Lexeme::Atom(b.0, b.1));
    let s3 = s4.after(Lexeme::Op(q));
    let s2 = s3.after(Lexeme::Atom(a.0, a.1));
    let s1 = s2.after(Lexeme::Op(u));
    let power = unary_power(u).unwrap();
    let (lq, rq) = infix_power(q).unwrap();
    lemma_after_advance(end, Lexeme::Atom(b.0, b.1));
    lemma_after_advance(s4, Lexeme::Op(q));
    lemma_after_advance(s3, Lexeme::Atom(a.0, a.1));
    lemma_after_advance(s2, Lexeme::Op(u));
    lemma_atom_is_primary(b.0, b.1, end);
    lemma_atom_is_primary(a.0, a.1, s3);
    assert(forall|left: Tree, min: nat|
        #[trigger] infix_loop(left, end, min) == Ok::<(Tree, Stream), Failure>((left, end)));
    assert(expr_bp(s4, rq) == Ok::<(Tree, Stream), Failure>((tb, end)));
    if lq >= power {
        let inner = Tree::Cons(q, seq![ta, tb]);
        assert(infix_loop(ta, s3, power) == infix_loop(inner, end, power));
        assert(expr_bp(s2, power) == Ok::<(Tree, Stream), Failure>((inner, end)));
        assert(primary(s1) == Ok::<(Tree, Stream), Failure>((Tree::Cons(u, seq![inner]), end)));
    } else {
        let inner = Tree::Cons(u, seq![ta]);
        assert(infix_loop(ta, s3, power) == Ok::<(Tree, Stream), Failure>((ta, s3)));
        assert(expr_bp(s2, power) == Ok::<(Tree, Stream), Failure>((ta, s3)));
        assert(primary(s1) == Ok::<(Tree, Stream), Failure>((inner, s3)));
        assert(infix_loop(inner, s3, 0) == infix_loop(Tree::Cons(q, seq![inner, tb]), end, 0));
    }
}

/// An infix operator cannot start an expression: apart from `-`, which is
/// also a prefix operator, and `(`, which also opens a group, an operator
/// with an infix power in first place is a bad token.
pub proof fn law_infix_operator_needs_a_left_operand(s: Stream, min: nat)
    requires
        s.tokens.len() > 0,
        s.tokens[0] is Op,
        infix_power(s.tokens[0].text()) is Some,
        s.tokens[0].text() != "-"@,
        s.tokens[0].text() != "("@,
    ensures
        primary(s) == Err::<(Tree, Stream), Failure>(Failure::BadToken(s.tokens[0])),
        expr_bp(s, min) == Err::<(Tree, Stream), Failure>(Failure::BadToken(s.tokens[0])),
{
    lemma_operator_texts();
    let op = s.tokens[0].text();
    assert(s.tokens[0] == Lexeme::Op(op));
    assert(unary_power(op) is None);
}

/// Parentheses around one expression give that expression: where `inner`
/// starts with an expression and the closing parenthesis stands right behind
/// it, the group is read as the expression itself, with no node around it.
pub proof fn law_group_of_one_is_its_expression(inner: Stream, item: Tree, rest: Stream)
    requires
        expr_bp(inner, 0) == Ok::<(Tree, Stream), Failure>((item, rest)),
        rest.tokens.len() > 0,
        rest.tokens[0].is_op(")"@),
    ensures
        primary(inner.after(Lexeme::Op("("@))) == Ok::<(Tree, Stream), Failure>(
            (item, rest.advance()),
        ),
{
    lemma_operator_texts();
    let s = inner.after(Lexeme::Op("("@));
    lemma_after_advance(inner, Lexeme::Op("("@));
    lemma_progress(inner, 0);
    assert(unary_power("("@) is None);
    if inner.tokens.len() > 0 && inner.tokens[0].is_op(")"@) {
        assert(unary_power(")"@) is None);
        assert(primary(inner) is Err);
    }
    assert(comma_more(seq![item], rest) == Ok::<(Seq<Tree>, Stream), Failure>(
        (seq![item], rest),
    ));
    assert(comma(inner, "seq"@, ")"@) == Ok::<(Tree, Stream), Failure>(
        (Tree::Cons("seq"@, seq![item]), rest),
    ));
}

/// Parentheses around several expressions give a node with the tag `seq`:
/// where the list between them has not exactly one item, it stays a list.
pub proof fn law_group_of_several_is_a_seq(inner: Stream, items: Seq<Tree>, rest: Stream)
    requires
        comma(inner, "seq"@, ")"@) == Ok::<(Tree, Stream), Failure>(
            (Tree::Cons("seq"@, items), rest),
        ),
        items.len() != 1,
        rest.tokens.len() > 0,
        rest.tokens[0].is_op(")"@),
    ensures
        primary(inner.after(Lexeme::Op("("@))) == Ok::<(Tree, Stream), Failure>(
            (Tree::Cons("seq"@, items), rest.advance()),
        ),
{
    lemma_operator_texts();
    lemma_after_advance(inner, Lexeme::Op("("@));
    assert(unary_power("("@) is None);
}

} // verus!
