//! Lexemes that regular expressions describe.
//!
//! The `regex` crate does the matching. What a pattern matches in a haystack
//! is not restated here: it is named by [`regex_find`], and the contracts say
//! what the lexer makes of a match.

use regex::Regex;
use vstd::prelude::*;

verus! {

/// The number grammar: digits, then optionally a point and more digits.
pub const NUMBER: &'static str = "^\\d+(\\.\\d+)?";

/// The text grammar: a double quote, then characters other than quote and
/// backslash or a backslash with the character after it, then a double quote.
pub const TEXT: &'static str = "^\"([^\"\\\\]|\\\\[\\s\\S])*\"";

/// The operator grammar: one of the two-character operators, else a single
/// punctuation character.
pub const OPERATOR: &'static str = "(>=|<=)|==|[+\\-*/%^<>=,.:!?()\\[\\]{}]";

/// Whether `pattern` is one of the three grammars of this module.
pub open spec fn is_grammar(pattern: Seq<char>) -> bool {
    pattern == NUMBER@ || pattern == TEXT@ || pattern == OPERATOR@
}

/// The leftmost match of `pattern` in `haystack`, as the `regex` crate finds
/// it: the character offsets at which it starts and ends. `None` when the
/// pattern does not compile or matches nowhere.
pub uninterp spec fn regex_find(pattern: Seq<char>, haystack: Seq<char>) -> Option<(int, int)>;

/// `Regex::new` followed by `Regex::find`: the haystack cut at the two ends
/// of the leftmost match, that is what lies before the match, the match, and
/// what lies after it. The crate promises that a match starts no later than
/// it ends and that the haystack can be sliced at both offsets. The pattern
/// is compiled on every call.
#[verifier::external_body]
fn find<'h>(pattern: &str, haystack: &'h str) -> (found: Option<(&'h str, &'h str, &'h str)>)
    requires
        is_grammar(pattern@),
    ensures
        match regex_find(pattern@, haystack@) {
            Some((start, end)) => {
                &&& 0 <= start <= end <= haystack@.len()
                &&& found matches Some(parts)
                &&& parts.0@ == haystack@.subrange(0, start)
                &&& parts.1@ == haystack@.subrange(start, end)
                &&& parts.2@ == haystack@.subrange(end, haystack@.len() as int)
            },
            None => found is None,
        },
{
    let re = Regex::new(pattern).ok()?;
    let m = re.find(haystack)?;
    Some((&haystack[..m.start()], m.as_str(), &haystack[m.end()..]))
}

/// The lexeme at the start of `src` and what follows it: the match of
/// `pattern`, where that match begins at the first character and is not
/// empty.
pub open spec fn lexeme_of(pattern: Seq<char>, src: Seq<char>) -> Option<(Seq<char>, Seq<char>)> {
    match regex_find(pattern, src) {
        Some((start, end)) => if start == 0 && 0 < end <= src.len() {
            Some((src.take(end), src.skip(end)))
        } else {
            None
        },
        None => None,
    }
}

/// The two slices of a cut, as sequences of characters.
pub open spec fn cut_view(cut: Option<(&str, &str)>) -> Option<(Seq<char>, Seq<char>)> {
    match cut {
        Some((hit, rest)) => Some((hit@, rest@)),
        None => None,
    }
}

/// Keeps a match only where nothing lies before it and it is not empty, and
/// hands back the match and what follows it.
pub fn at_start<'h>(found: Option<(&'h str, &'h str, &'h str)>) -> (cut: Option<
    (&'h str, &'h str),
>)
    ensures
        cut == match found {
            Some((before, hit, after)) => if before@.len() == 0 && hit@.len() > 0 {
                Some((hit, after))
            } else {
                None
            },
            None => None,
        },
{
    match found {
        Some((before, hit, after)) => {
            if before.is_empty() && !hit.is_empty() {
                Some((hit, after))
            } else {
                None
            }
        },
        None => None,
    }
}

/// The lexeme that the grammar `pattern` describes at the start of `src`,
/// with the rest of `src` behind it.
fn lexeme<'h>(pattern: &str, src: &'h str) -> (cut: Option<(&'h str, &'h str)>)
    requires
        is_grammar(pattern@),
    ensures
        cut_view(cut) == lexeme_of(pattern@, src@),
{
    at_start(find(pattern, src))
}

/// An operator at the start of `src`: `>=`, `<=` or `==` where one stands
/// there, else a single punctuation character.
pub fn operator<'h>(src: &'h str) -> (cut: Option<(&'h str, &'h str)>)
    ensures
        cut_view(cut) == lexeme_of(OPERATOR@, src@),
{
    lexeme(OPERATOR, src)
}

/// A numeral at the start of `src`.
pub fn number<'h>(src: &'h str) -> (cut: Option<(&'h str, &'h str)>)
    ensures
        cut_view(cut) == lexeme_of(NUMBER@, src@),
{
    lexeme(NUMBER, src)
}

/// A text literal at the start of `src`, quotes included.
pub fn text<'h>(src: &'h str) -> (cut: Option<(&'h str, &'h str)>)
    ensures
        cut_view(cut) == lexeme_of(TEXT@, src@),
{
    lexeme(TEXT, src)
}

} // verus!
