//! Character-level operations on string slices.
//!
//! A `&str` is viewed as its sequence of characters. The functions here take
//! the first character off a slice, cut a slice in two where a suffix of it
//! begins, and compare two slices, all without copying.

use std::str::Chars;
use vstd::prelude::*;
use vstd::std_specs::iter::IteratorSpec;
use vstd::string::StringSliceAdditionalSpecFns;
use vstd::utf8::*;

verus! {

/// Whether `c` has the Unicode property White_Space, as `char::is_whitespace`
/// reports it.
pub uninterp spec fn whitespace(c: char) -> bool;

/// Whether `c` is in one of the Unicode general categories for numbers, as
/// `char::is_numeric` reports it.
pub uninterp spec fn numeric(c: char) -> bool;

/// Whether `c` has the Unicode property XID_Start, as the `unicode-ident`
/// crate reports it.
pub uninterp spec fn xid_start(c: char) -> bool;

/// Whether `c` has the Unicode property XID_Continue, as the `unicode-ident`
/// crate reports it.
pub uninterp spec fn xid_continue(c: char) -> bool;

/// `unicode_ident::is_xid_start`: a table lookup, so the answer depends on
/// the character alone.
pub assume_specification[ unicode_ident::is_xid_start ](ch: char) -> (b: bool)
    ensures
        b == xid_start(ch),
;

/// `unicode_ident::is_xid_continue`: a table lookup, so the answer depends on
/// the character alone.
pub assume_specification[ unicode_ident::is_xid_continue ](ch: char) -> (b: bool)
    ensures
        b == xid_continue(ch),
;

/// `char::is_whitespace`: the answer depends on the character alone.
pub assume_specification[ char::is_whitespace ](c: char) -> (b: bool)
    ensures
        b == whitespace(c),
;

/// `char::is_numeric`: the answer depends on the character alone.
pub assume_specification[ char::is_numeric ](c: char) -> (b: bool)
    ensures
        b == numeric(c),
;

/// `Chars::as_str`: the part of the string that the iterator has not yet
/// walked, which holds exactly the characters it will still yield.
pub assume_specification<'a>[ Chars::<'a>::as_str ](chars: &Chars<'a>) -> (rest: &'a str)
    ensures
        rest@ == chars.remaining(),
;

/// `tail` is what is left of `whole` after some characters at its start.
pub open spec fn is_suffix(tail: Seq<char>, whole: Seq<char>) -> bool {
    tail.len() <= whole.len() && whole.skip(whole.len() - tail.len()) == tail
}

/// The UTF-8 encoding of a concatenation is the concatenation of the
/// encodings.
pub proof fn lemma_encode_concat(a: Seq<char>, b: Seq<char>)
    ensures
        encode_utf8(a + b) == encode_utf8(a) + encode_utf8(b),
    decreases a.len(),
{
    if a.len() == 0 {
        assert(a + b == b);
    } else {
        lemma_encode_concat(a.drop_first(), b);
        assert((a + b).drop_first() == a.drop_first() + b);
    }
}

/// In the encoding of `a + b`, the place where `b` begins is a character
/// boundary.
pub proof fn lemma_concat_boundary(a: Seq<char>, b: Seq<char>)
    ensures
        is_char_boundary(encode_utf8(a + b), encode_utf8(a).len() as int),
    decreases a.len(),
{
    let bytes = encode_utf8(a + b);
    encode_utf8_valid_utf8(a + b);
    if a.len() > 0 {
        let tail = a.drop_first();
        encode_utf8_first_scalar(a + b);
        encode_utf8_first_scalar(a);
        lemma_encode_concat(a, b);
        lemma_encode_concat(tail, b);
        assert((a + b).drop_first() == tail + b);
        assert(pop_first_scalar(bytes) == encode_utf8(tail + b));
        lemma_concat_boundary(tail, b);
        assert(encode_utf8(a).len() == encode_scalar(a[0] as u32).len() + encode_utf8(tail).len());
    }
}

/// Splits the first character off `s`. `None` exactly when `s` is empty.
pub fn first_char<'a>(s: &'a str) -> (r: Option<(char, &'a str)>)
    ensures
        match r {
            Some((c, rest)) => s@.len() > 0 && c == s@[0] && rest@ == s@.drop_first(),
            None => s@.len() == 0,
        },
{
    broadcast use vstd::string::group_string_axioms;

    let mut it = s.chars();
    match it.next() {
        Some(c) => Some((c, it.as_str())),
        None => None,
    }
}

/// The part of `whole` that comes before its suffix `tail`.
pub fn before<'a>(whole: &'a str, tail: &str) -> (head: &'a str)
    requires
        is_suffix(tail@, whole@),
    ensures
        head@ == whole@.take(whole@.len() - tail@.len()),
        head@ + tail@ == whole@,
{
    let ghost cut = whole@.len() - tail@.len();
    let ghost a = whole@.take(cut);
    proof {
        assert(a + tail@ == whole@);
        lemma_encode_concat(a, tail@);
        lemma_concat_boundary(a, tail@);
    }
    let mid = whole.as_bytes().len() - tail.as_bytes().len();
    let (head, _) = whole.split_at(mid);
    proof {
        assert(head.spec_bytes() == encode_utf8(a));
        encode_utf8_decode_utf8(a);
        encode_utf8_decode_utf8(head@);
    }
    head
}

/// Whether two slices hold the same characters.
pub fn same_text(a: &str, b: &str) -> (same: bool)
    ensures
        same == (a@ == b@),
{
    let x = a.as_bytes();
    let y = b.as_bytes();
    proof {
        encode_utf8_decode_utf8(a@);
        encode_utf8_decode_utf8(b@);
    }
    if x.len() != y.len() {
        return false;
    }
    let mut i: usize = 0;
    while i < x.len()
        invariant
            i <= x.len(),
            x.len() == y.len(),
            x@ == a.spec_bytes(),
            y@ == b.spec_bytes(),
            forall|j: int| 0 <= j < i ==> x@[j] == y@[j],
        decreases x.len() - i,
    {
        if x[i] != y[i] {
            return false;
        }
        i += 1;
    }
    assert(x@ == y@);
    true
}

} // verus!
