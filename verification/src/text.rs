//! Characters and strings: building a `String`, and picking the Latin letters
//! out of a text.

use vstd::prelude::*;

verus! {

/// `String::push` of std appends the character to the end of the string and
/// leaves what was there before as it was.
pub assume_specification[ String::push ](s: &mut String, ch: char)
    ensures
        final(s)@ == old(s)@.push(ch),
;

/// A capital Latin letter.
pub open spec fn is_latin_capital(c: char) -> bool {
    'A' <= c && c <= 'Z'
}

/// The letter that one character of a text contributes, if any: a Latin letter
/// in upper case.
pub open spec fn latin_kept(c: char) -> Option<char> {
    if 'A' <= c && c <= 'Z' {
        Some(c)
    } else if 'a' <= c && c <= 'z' {
        Some((c as u8 - 32) as char)
    } else {
        None
    }
}

/// The Latin letters of a text, in order and in upper case. Everything else is
/// left out.
pub open spec fn latin_letters(text: Seq<char>) -> Seq<char> {
    text.filter_map(|c: char| latin_kept(c))
}

/// Every member of `letters` is a capital Latin letter.
pub open spec fn all_latin_capitals(letters: Seq<char>) -> bool {
    forall|i: int| 0 <= i < letters.len() ==> is_latin_capital(#[trigger] letters[i])
}

/// The string that holds the characters of `chars` in their order.
pub fn string_of(chars: &Vec<char>) -> (s: String)
    ensures
        s@ == chars@,
{
    let mut s = String::new();
    let mut i: usize = 0;
    while i < chars.len()
        invariant
            i <= chars.len(),
            s@ == chars@.take(i as int),
        decreases chars.len() - i,
    {
        s.push(chars[i]);
        i += 1;
    }
    s
}

/// The Latin letters of `text`, in upper case.
pub fn filter_latin(text: &str) -> (out: Vec<char>)
    ensures
        out@ == latin_letters(text@),
        all_latin_capitals(out@),
{
    let mut out: Vec<char> = Vec::new();
    for c in it: text.chars()
        invariant
            it.seq() == text@,
            out@ == latin_letters(text@.take(it.index() as int)),
            all_latin_capitals(out@),
    {
        proof {
            text@.lemma_filter_map_take_succ(|c: char| latin_kept(c), it.index() as int);
        }
        if 'A' <= c && c <= 'Z' {
            out.push(c);
        } else if 'a' <= c && c <= 'z' {
            out.push((c as u8 - 32) as char);
        }
    }
    assert(text@.take(text@.len() as int) == text@);
    out
}

} // verus!
