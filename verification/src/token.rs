//! Tokens, and the lexer that cuts source text into them.

use crate::pattern::{lexeme_of, number, operator, text, NUMBER, OPERATOR, TEXT};
use crate::text::{
    before, first_char, is_suffix, numeric, same_text, whitespace, xid_continue, xid_start,
};
use unicode_ident::{is_xid_continue, is_xid_start};
use vstd::prelude::*;

verus! {

/// A lexical unit: a slice of the source text and what it stands for.
#[derive(Debug, Clone, Copy)]
pub enum Token<'a> {
    /// A literal or an identifier, with its kind: `"number"`, `"bool"`,
    /// `"unit"`, `"text"` or `"id"`.
    Atom(&'a str, &'static str),
    /// A punctuation cluster or a keyword.
    Op(&'a str),
}

/// What a token is, apart from where its text is stored.
pub enum Lexeme {
    Atom(Seq<char>, Seq<char>),
    Op(Seq<char>),
}

impl Lexeme {
    /// Whether the lexeme is one that the lexer can yield: it is not empty,
    /// and an atom has one of the five kinds.
    pub open spec fn well_formed(self) -> bool {
        &&& self.text().len() > 0
        &&& self matches Lexeme::Atom(_, kind) ==> {
            ||| kind == "number"@
            ||| kind == "bool"@
            ||| kind == "unit"@
            ||| kind == "text"@
            ||| kind == "id"@
        }
    }

    /// Whether the lexeme is the operator `text`.
    pub open spec fn is_op(self, text: Seq<char>) -> bool {
        self == Lexeme::Op(text)
    }

    /// The characters of the lexeme as they stood in the source.
    pub open spec fn text(self) -> Seq<char> {
        match self {
            Lexeme::Atom(text, _) => text,
            Lexeme::Op(text) => text,
        }
    }
}

impl<'a> View for Token<'a> {
    type V = Lexeme;

    open spec fn view(&self) -> Lexeme {
        match *self {
            Token::Atom(text, kind) => Lexeme::Atom(text@, kind@),
            Token::Op(text) => Lexeme::Op(text@),
        }
    }
}

impl<'a> Token<'a> {
    /// Whether the token is the operator `text`.
    pub fn is_op(&self, text: &str) -> (b: bool)
        ensures
            b == self@.is_op(text@),
    {
        match *self {
            Token::Atom(_, _) => false,
            Token::Op(op) => same_text(op, text),
        }
    }

    /// The slice of the source that the token covers.
    pub fn text(&self) -> (t: &'a str)
        ensures
            t@ == self@.text(),
    {
        match *self {
            Token::Atom(text, _) => text,
            Token::Op(text) => text,
        }
    }
}

/// Why lexing or parsing stopped.
#[derive(Debug, Clone, Copy)]
pub enum ParseError<'a> {
    /// A character at which no token can be read: one that begins none, or
    /// one that begins a number or a text which then does not follow its
    /// grammar. Nothing behind it is read.
    BadCharacter(char),
    /// A token where no production expects it.
    BadToken(Token<'a>),
    /// The input ended where a token was required.
    EndOfInput,
}

/// A [`ParseError`] apart from where its text is stored.
pub enum Failure {
    BadCharacter(char),
    BadToken(Lexeme),
    EndOfInput,
}

impl<'a> View for ParseError<'a> {
    type V = Failure;

    open spec fn view(&self) -> Failure {
        match *self {
            ParseError::BadCharacter(c) => Failure::BadCharacter(c),
            ParseError::BadToken(t) => Failure::BadToken(t@),
            ParseError::EndOfInput => Failure::EndOfInput,
        }
    }
}

/// The characters that start an operator.
pub open spec fn punctuation(c: char) -> bool {
    ||| c == '+'
    ||| c == '-'
    ||| c == '*'
    ||| c == '/'
    ||| c == '%'
    ||| c == '^'
    ||| c == '<'
    ||| c == '>'
    ||| c == '='
    ||| c == ','
    ||| c == '.'
    ||| c == ':'
    ||| c == '!'
    ||| c == '?'
    ||| c == '('
    ||| c == ')'
    ||| c == '['
    ||| c == ']'
    ||| c == '{'
    ||| c == '}'
}

/// The reserved words. None of them can be an identifier.
pub open spec fn keyword(word: Seq<char>) -> bool {
    ||| word == "var"@
    ||| word == "and"@
    ||| word == "or"@
    ||| word == "not"@
    ||| word == "xor"@
    ||| word == "to"@
    ||| word == "do"@
    ||| word == "end"@
    ||| word == "if"@
    ||| word == "then"@
    ||| word == "else"@
    ||| word == "match"@
    ||| word == "with"@
    ||| word == "loop"@
    ||| word == "break"@
    ||| word == "function"@
    ||| word == "type"@
    ||| word == "record"@
    ||| word == "trait"@
}

/// The characters that start a word: those with XID_Start, and the
/// underscore.
pub open spec fn word_start(c: char) -> bool {
    xid_start(c) || c == '_'
}

/// How many characters at the start of `s` have XID_Continue.
pub open spec fn run_len(s: Seq<char>) -> nat
    decreases s.len(),
{
    if s.len() > 0 && xid_continue(s[0]) {
        1 + run_len(s.drop_first())
    } else {
        0
    }
}

/// The length of the word at the start of `s`: its first character and the
/// longest run of XID_Continue characters behind it.
pub open spec fn word_len(s: Seq<char>) -> nat {
    if s.len() == 0 {
        0
    } else {
        1 + run_len(s.drop_first())
    }
}

/// What a word stands for: a boolean, the unit value, a keyword or an
/// identifier.
pub open spec fn classify(word: Seq<char>) -> Lexeme {
    if word == "true"@ || word == "false"@ {
        Lexeme::Atom(word, "bool"@)
    } else if word == "unit"@ {
        Lexeme::Atom(word, "unit"@)
    } else if keyword(word) {
        Lexeme::Op(word)
    } else {
        Lexeme::Atom(word, "id"@)
    }
}

/// A run never extends past the end of the text.
pub proof fn lemma_run_len_bound(s: Seq<char>)
    ensures
        run_len(s) <= s.len(),
    decreases s.len(),
{
    if s.len() > 0 && xid_continue(s[0]) {
        lemma_run_len_bound(s.drop_first());
    }
}

/// Whether `c` starts an operator.
pub fn is_punctuation(c: char) -> (b: bool)
    ensures
        b == punctuation(c),
{
    c == '+' || c == '-' || c == '*' || c == '/' || c == '%' || c == '^' || c == '<' || c == '>'
        || c == '=' || c == ',' || c == '.' || c == ':' || c == '!' || c == '?' || c == '('
        || c == ')' || c == '[' || c == ']' || c == '{' || c == '}'
}

/// Whether `word` is reserved.
pub fn is_keyword(word: &str) -> (b: bool)
    ensures
        b == keyword(word@),
{
    same_text(word, "var")
        || same_text(word, "and")
        || same_text(word, "or")
        || same_text(word, "not")
        || same_text(word, "xor")
        || same_text(word, "to")
        || same_text(word, "do")
        || same_text(word, "end")
        || same_text(word, "if")
        || same_text(word, "then")
        || same_text(word, "else")
        || same_text(word, "match")
        || same_text(word, "with")
        || same_text(word, "loop")
        || same_text(word, "break")
        || same_text(word, "function")
        || same_text(word, "type")
        || same_text(word, "record")
        || same_text(word, "trait")
}

/// The token that a word stands for.
pub fn word_token<'a>(word: &'a str) -> (t: Token<'a>)
    ensures
        t@ == classify(word@),
{
    if same_text(word, "true") || same_text(word, "false") {
        Token::Atom(word, "bool")
    } else if same_text(word, "unit") {
        Token::Atom(word, "unit")
    } else if is_keyword(word) {
        Token::Op(word)
    } else {
        Token::Atom(word, "id")
    }
}

/// Cuts the word at the start of `src` from what follows it: the first
/// character, whatever it is, and every XID_Continue character behind it.
pub fn scan<'a>(src: &'a str) -> (r: (&'a str, &'a str))
    ensures
        word_len(src@) <= src@.len(),
        r.0@ == src@.take(word_len(src@) as int),
        r.1@ == src@.skip(word_len(src@) as int),
{
    let mut rest = match first_char(src) {
        Some((_, tail)) => tail,
        None => {
            assert(src@.take(0) == src@);
            assert(src@.skip(0) == src@);
            return (src, src);
        },
    };
    let ghost mut k: int = 1;
    proof {
        lemma_run_len_bound(src@.drop_first());
    }
    loop
        invariant
            1 <= k <= src@.len(),
            rest@ == src@.skip(k),
            k + run_len(rest@) == word_len(src@),
            word_len(src@) <= src@.len(),
        ensures
            k == word_len(src@),
        decreases rest@.len(),
    {
        match first_char(rest) {
            Some((c, tail)) => {
                if is_xid_continue(c) {
                    proof {
                        assert(src@.skip(k).drop_first() == src@.skip(k + 1));
                        k = k + 1;
                    }
                    rest = tail;
                } else {
                    break ;
                }
            },
            None => {
                break ;
            },
        }
    }
    assert(is_suffix(rest@, src@));
    (before(src, rest), rest)
}

/// What stands at the start of a text.
pub enum Scanned {
    /// Nothing: the text has ended.
    End,
    /// A character at which no token can be read.
    Bad(char),
    /// A token, and the text behind it.
    Tok(Lexeme, Seq<char>),
}

/// The text behind the first line break of `s`; nothing where `s` has none.
pub open spec fn after_line(s: Seq<char>) -> Seq<char>
    decreases s.len(),
{
    if s.len() == 0 {
        s
    } else if s[0] == '\n' {
        s.drop_first()
    } else {
        after_line(s.drop_first())
    }
}

/// What is left of a line is never longer than the line.
pub proof fn lemma_after_line(s: Seq<char>)
    ensures
        is_suffix(after_line(s), s),
    decreases s.len(),
{
    if s.len() > 0 && s[0] != '\n' {
        lemma_after_line(s.drop_first());
        let t = s.drop_first();
        assert(s.skip(s.len() - after_line(s).len()) == t.skip(t.len() - after_line(t).len()));
    } else if s.len() > 0 {
        assert(s.skip(1) == s.drop_first());
    } else {
        assert(s.skip(0) == s);
    }
}

/// The characters that separate tokens: white space. The comment marker
/// is never one of them.
pub open spec fn blank(c: char) -> bool {
    c != '#' && whitespace(c)
}

/// The text behind the blanks and the comments at the start of `s`. A
/// comment runs from `#` through the end of its line.
pub open spec fn after_trivia(s: Seq<char>) -> Seq<char>
    decreases s.len(),
{
    if s.len() == 0 {
        s
    } else if s[0] == '#' {
        proof {
            lemma_after_line(s.drop_first());
        }
        after_trivia(after_line(s.drop_first()))
    } else if blank(s[0]) {
        after_trivia(s.drop_first())
    } else {
        s
    }
}

/// The token that a match of a literal's grammar gives; a bad character
/// where the grammar matches nothing at the start of `s`.
pub open spec fn literal(
    cut: Option<(Seq<char>, Seq<char>)>,
    kind: Seq<char>,
    s: Seq<char>,
) -> Scanned
    recommends
        s.len() > 0,
{
    match cut {
        Some((hit, rest)) => Scanned::Tok(Lexeme::Atom(hit, kind), rest),
        None => Scanned::Bad(s[0]),
    }
}

/// What stands at the start of `s`, where `s` starts with neither a blank
/// nor a comment. The first character decides which grammar applies.
pub open spec fn scan_at(s: Seq<char>) -> Scanned {
    if s.len() == 0 {
        Scanned::End
    } else if numeric(s[0]) {
        literal(lexeme_of(NUMBER@, s), "number"@, s)
    } else if word_start(s[0]) {
        Scanned::Tok(classify(s.take(word_len(s) as int)), s.skip(word_len(s) as int))
    } else if s[0] == '"' {
        literal(lexeme_of(TEXT@, s), "text"@, s)
    } else if punctuation(s[0]) {
        match lexeme_of(OPERATOR@, s) {
            Some((hit, rest)) => Scanned::Tok(Lexeme::Op(hit), rest),
            None => Scanned::Bad(s[0]),
        }
    } else {
        Scanned::Bad(s[0])
    }
}

/// What stands at the start of `src` once blanks and comments are passed
/// over.
pub open spec fn scan_from(src: Seq<char>) -> Scanned {
    scan_at(after_trivia(src))
}

/// The text behind the first line break of `src`.
pub fn skip_line<'a>(src: &'a str) -> (rest: &'a str)
    ensures
        rest@ == after_line(src@),
{
    let mut rest = src;
    loop
        invariant_except_break
            after_line(rest@) == after_line(src@),
        ensures
            rest@ == after_line(src@),
        decreases rest@.len(),
    {
        match first_char(rest) {
            Some((c, tail)) => {
                rest = tail;
                if c == '\n' {
                    break ;
                }
            },
            None => {
                break ;
            },
        }
    }
    rest
}

/// The text behind the blanks and the comments at the start of `src`.
pub fn skip_trivia<'a>(src: &'a str) -> (rest: &'a str)
    ensures
        rest@ == after_trivia(src@),
{
    let mut rest = src;
    loop
        invariant_except_break
            after_trivia(rest@) == after_trivia(src@),
        ensures
            rest@ == after_trivia(src@),
        decreases rest@.len(),
    {
        match first_char(rest) {
            Some((c, tail)) => {
                if c == '#' {
                    proof {
                        lemma_after_line(tail@);
                    }
                    rest = skip_line(tail);
                } else if c.is_whitespace() {
                    rest = tail;
                } else {
                    break ;
                }
            },
            None => {
                break ;
            },
        }
    }
    rest
}

/// The token at the start of `src`, with the text behind it. `Ok(None)` when
/// `src` is empty; a bad character where the first character begins no token.
pub fn token<'a>(src: &'a str) -> (r: Result<Option<(Token<'a>, &'a str)>, ParseError<'a>>)
    ensures
        match scan_at(src@) {
            Scanned::End => r matches Ok(None),
            Scanned::Bad(c) => r matches Err(ParseError::BadCharacter(d)) && d == c,
            Scanned::Tok(t, rest) => r matches Ok(Some((tok, tail))) && tok@ == t && tail@ == rest,
        },
{
    let c = match first_char(src) {
        Some((c, _)) => c,
        None => {
            return Ok(None);
        },
    };
    if c.is_numeric() {
        match number(src) {
            Some((hit, rest)) => Ok(Some((Token::Atom(hit, "number"), rest))),
            None => Err(ParseError::BadCharacter(c)),
        }
    } else if is_xid_start(c) || c == '_' {
        let (word, rest) = scan(src);
        Ok(Some((word_token(word), rest)))
    } else if c == '"' {
        match text(src) {
            Some((hit, rest)) => Ok(Some((Token::Atom(hit, "text"), rest))),
            None => Err(ParseError::BadCharacter(c)),
        }
    } else if is_punctuation(c) {
        match operator(src) {
            Some((hit, rest)) => Ok(Some((Token::Op(hit), rest))),
            None => Err(ParseError::BadCharacter(c)),
        }
    } else {
        Err(ParseError::BadCharacter(c))
    }
}

/// The tokens that a lexer has yet to yield, and how they end.
pub struct Stream {
    /// The tokens, in the order in which they come.
    pub tokens: Seq<Lexeme>,
    /// The character at which lexing stops behind the last token, if it does
    /// not stop at the end of the text.
    pub bad: Option<char>,
}

impl Stream {
    /// The stream with `t` put before it.
    pub open spec fn after(self, t: Lexeme) -> Stream {
        Stream { tokens: seq![t] + self.tokens, bad: self.bad }
    }

    /// The stream without its first token.
    pub open spec fn advance(self) -> Stream {
        Stream { tokens: self.tokens.drop_first(), bad: self.bad }
    }

    /// Why nothing can be read where the stream holds no token: a bad
    /// character if lexing stopped at one, else the end of the input.
    pub open spec fn exhausted(self) -> Failure {
        match self.bad {
            Some(c) => Failure::BadCharacter(c),
            None => Failure::EndOfInput,
        }
    }

    /// What a look at the stream gives: its first token, nothing at the end
    /// of the text, or the bad character that stopped the lexer.
    pub open spec fn first(self) -> Result<Option<Lexeme>, Failure> {
        if self.tokens.len() > 0 {
            Ok(Some(self.tokens[0]))
        } else {
            match self.bad {
                Some(c) => Err(Failure::BadCharacter(c)),
                None => Ok(None),
            }
        }
    }
}

/// Putting a token before a stream and taking it off again changes nothing.
pub proof fn lemma_after_advance(s: Stream, t: Lexeme)
    ensures
        s.after(t).advance() == s,
        s.after(t).first() == Ok::<Option<Lexeme>, Failure>(Some(t)),
        s.after(t).tokens.len() == s.tokens.len() + 1,
{
    assert(s.after(t).advance().tokens =~= s.tokens);
}

/// What is left behind blanks and comments is never longer.
pub proof fn lemma_after_trivia(s: Seq<char>)
    ensures
        after_trivia(s).len() <= s.len(),
    decreases s.len(),
{
    if s.len() == 0 {
    } else if s[0] == '#' {
        lemma_after_line(s.drop_first());
        lemma_after_trivia(after_line(s.drop_first()));
    } else if blank(s[0]) {
        lemma_after_trivia(s.drop_first());
    }
}

/// A token is never empty: the text behind it is shorter than the text it
/// was cut from.
pub proof fn lemma_scan_shrinks(src: Seq<char>)
    ensures
        scan_from(src) matches Scanned::Tok(_, rest) ==> rest.len() < src.len(),
{
    lemma_after_trivia(src);
    let s = after_trivia(src);
    if s.len() > 0 {
        lemma_run_len_bound(s.drop_first());
    }
}

/// The whole stream of tokens that `src` holds.
pub open spec fn tokens_of(src: Seq<char>) -> Stream
    decreases src.len(),
{
    match scan_from(src) {
        Scanned::End => Stream { tokens: seq![], bad: None },
        Scanned::Bad(c) => Stream { tokens: seq![], bad: Some(c) },
        Scanned::Tok(t, rest) => {
            proof {
                lemma_scan_shrinks(src);
            }
            tokens_of(rest).after(t)
        },
    }
}

/// A cursor over source text that yields its tokens one at a time, with one
/// token of lookahead.
pub struct Lexer<'a> {
    src: &'a str,
    peek: Option<Token<'a>>,
}

impl<'a> View for Lexer<'a> {
    type V = Stream;

    /// The tokens that the lexer has yet to yield: the one it has looked at,
    /// if any, and those of the text it has not read.
    closed spec fn view(&self) -> Stream {
        match self.peek {
            Some(t) => tokens_of(self.src@).after(t@),
            None => tokens_of(self.src@),
        }
    }
}

impl<'a> Lexer<'a> {
    /// The token that the lexer has looked at and not yet yielded.
    pub closed spec fn buffered(&self) -> Option<Lexeme> {
        match self.peek {
            Some(t) => Some(t@),
            None => None,
        }
    }

    /// A lexer at the start of `src`.
    pub fn new(src: &'a str) -> (lexer: Lexer<'a>)
        ensures
            lexer@ == tokens_of(src@),
            lexer.buffered() is None,
    {
        Lexer { src, peek: None }
    }

    /// Yields the next token and moves past it. At the end of the text, and
    /// at a bad character, the lexer stays where it is.
    pub fn next(&mut self) -> (r: Result<Option<Token<'a>>, ParseError<'a>>)
        ensures
            final(self).buffered() is None,
            match old(self)@.first() {
                Ok(Some(t)) => {
                    &&& r matches Ok(Some(tok))
                    &&& tok@ == t
                    &&& final(self)@ == old(self)@.advance()
                },
                Ok(None) => r matches Ok(None) && final(self)@ == old(self)@,
                Err(f) => r matches Err(e) && e@ == f && final(self)@ == old(self)@,
            },
    {
        if self.peek.is_some() {
            proof {
                lemma_after_advance(tokens_of(self.src@), self.peek.unwrap()@);
            }
            return Ok(self.peek.take());
        }
        match token(skip_trivia(self.src)) {
            Ok(Some((tok, rest))) => {
                proof {
                    lemma_after_advance(tokens_of(rest@), tok@);
                }
                self.src = rest;
                Ok(Some(tok))
            },
            Ok(None) => Ok(None),
            Err(e) => Err(e),
        }
    }

    /// Shows the next token without moving past it: a second look shows the
    /// same token, and `next` then yields it.
    pub fn peek(&mut self) -> (r: Result<Option<&Token<'a>>, ParseError<'a>>)
        ensures
            final(self)@ == old(self)@,
            match old(self)@.first() {
                Ok(Some(t)) => {
                    &&& r matches Ok(Some(tok))
                    &&& tok@ == t
                    &&& final(self).buffered() == Some(t)
                },
                Ok(None) => r matches Ok(None) && final(self).buffered() is None,
                Err(f) => r matches Err(e) && e@ == f && final(self).buffered() is None,
            },
    {
        if self.peek.is_none() {
            match self.next() {
                Ok(None) => {},
                Ok(found) => {
                    self.peek = found;
                    assert(self@.tokens =~= old(self)@.tokens);
                },
                Err(e) => {
                    return Err(e);
                },
            }
        }
        Ok(self.peek.as_ref())
    }
}

} // verus!
