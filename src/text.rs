//! Small text helpers shared by the path rewriter.

use vstd::prelude::*;

verus! {

/// What `char::to_lowercase` yields for a character.
pub uninterp spec fn lowercase_of(c: char) -> Seq<char>;

/// What `char::to_uppercase` yields for a character.
pub uninterp spec fn uppercase_of(c: char) -> Seq<char>;

/// The characters of a string, in order.
pub(crate) fn chars_of(s: &str) -> (r: Vec<char>)
    ensures
        r@ == s@,
{
    broadcast use vstd::string::group_string_axioms;
    let mut out: Vec<char> = Vec::new();
    for c in it: s.chars()
        invariant
            it.seq() == s@,
            out@ == s@.take(it.index() as int),
    {
        out.push(c);
        assert(out@ =~= s@.take(it.index() + 1));
    }
    assert(s@.take(s@.len() as int) =~= s@);
    out
}

/// Relies on `String::from_iter`: a string made of the given characters.
#[verifier::external_body]
pub(crate) fn string_of(cs: &[char]) -> (r: String)
    ensures
        r@ == cs@,
{
    cs.iter().collect()
}

/// Whether two strings hold the same characters.
pub(crate) fn same_text(a: &str, b: &str) -> (r: bool)
    ensures
        r == (a@ == b@),
{
    let x = chars_of(a);
    let y = chars_of(b);
    if x.len() != y.len() {
        return false;
    }
    let mut i: usize = 0;
    while i < x.len()
        invariant
            x@ == a@,
            y@ == b@,
            x@.len() == y@.len(),
            i <= x@.len(),
            forall|j: int| 0 <= j < i ==> x@[j] == y@[j],
        decreases x@.len() - i,
    {
        if x[i] != y[i] {
            return false;
        }
        i = i + 1;
    }
    assert(x@ =~= y@);
    true
}

/// Relies on `char::to_lowercase`: the lowercase mapping of one character.
#[verifier::external_body]
fn char_lowercase(c: char) -> (r: Vec<char>)
    ensures
        r@ == lowercase_of(c),
{
    c.to_lowercase().collect()
}

/// Relies on `char::to_uppercase`: the uppercase mapping of one character.
#[verifier::external_body]
fn char_uppercase(c: char) -> (r: Vec<char>)
    ensures
        r@ == uppercase_of(c),
{
    c.to_uppercase().collect()
}

/// `s` with its first character replaced by its lowercase mapping.
pub open spec fn lowercase_first(s: Seq<char>) -> Seq<char>
    recommends
        s.len() > 0,
{
    lowercase_of(s[0]) + s.drop_first()
}

/// `s` with its first character replaced by its uppercase mapping.
pub open spec fn uppercase_first(s: Seq<char>) -> Seq<char>
    recommends
        s.len() > 0,
{
    uppercase_of(s[0]) + s.drop_first()
}

/// Appends `tail` to `head`.
pub(crate) fn extend_chars(head: &mut Vec<char>, tail: &[char])
    ensures
        final(head)@ == old(head)@ + tail@,
{
    let mut i: usize = 0;
    while i < tail.len()
        invariant
            i <= tail@.len(),
            head@ == old(head)@ + tail@.take(i as int),
        decreases tail@.len() - i,
    {
        head.push(tail[i]);
        i = i + 1;
        assert(tail@.take(i as int) == tail@.take(i - 1) + seq![tail@[i - 1]]);
    }
    assert(tail@.take(i as int) == tail@);
}

/// Lowercases the first character of a non-empty string.
pub fn to_lowercase_first(s: &str) -> (r: String)
    requires
        s@.len() > 0,
    ensures
        r@ == lowercase_first(s@),
{
    let cs = chars_of(s);
    let mut out = char_lowercase(cs[0]);
    extend_chars(&mut out, cs.as_slice().split_at(1).1);
    string_of(out.as_slice())
}

/// Uppercases the first character of a non-empty string.
pub fn to_uppercase_first(s: &str) -> (r: String)
    requires
        s@.len() > 0,
    ensures
        r@ == uppercase_first(s@),
{
    let cs = chars_of(s);
    let mut out = char_uppercase(cs[0]);
    extend_chars(&mut out, cs.as_slice().split_at(1).1);
    string_of(out.as_slice())
}

} // verus!
