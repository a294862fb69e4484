//! Characters and strings: the word-character class and a few conversions.

use vstd::prelude::*;

verus! {

/// Whether a character outside ASCII belongs to the Unicode word class
/// (`\w`), as `regex_syntax::is_word_character` decides it.
pub uninterp spec fn unicode_word_char(c: char) -> bool;

/// The ASCII word characters: letters, digits and the underscore.
pub open spec fn ascii_word_char(c: char) -> bool {
    let n = c as u32;
    ||| (0x30 <= n && n <= 0x39)
    ||| (0x41 <= n && n <= 0x5a)
    ||| n == 0x5f
    ||| (0x61 <= n && n <= 0x7a)
}

/// A word character: within ASCII a letter, a digit or the underscore;
/// beyond ASCII whatever the Unicode word class holds.
pub open spec fn word_char(c: char) -> bool {
    if (c as u32) < 0x80 {
        ascii_word_char(c)
    } else {
        unicode_word_char(c)
    }
}

/// A non-empty run of word characters.
pub open spec fn is_word(s: Seq<char>) -> bool {
    s.len() > 0 && forall|i: int| 0 <= i < s.len() ==> word_char(#[trigger] s[i])
}

/// Calls `regex_syntax::is_word_character`. Trusted: for an ASCII character
/// the answer is that of the ASCII word class (the crate tests
/// `is_word_byte` first, and its table holds no other ASCII range); for any
/// other character it is the value named `unicode_word_char`.
#[verifier::external_body]
pub(crate) fn is_word_char(c: char) -> (r: bool)
    ensures
        r == word_char(c),
        (c as u32) >= 0x80 ==> r == unicode_word_char(c),
{
    regex_syntax::is_word_character(c)
}

/// The characters of a string, in order.
pub fn to_chars(s: &str) -> (r: Vec<char>)
    ensures
        r@ == s@,
{
    let mut out: Vec<char> = Vec::new();
    for c in it: s.chars()
        invariant
            it.seq() == s@,
            out@ == s@.take(it.index() as int),
    {
        out.push(c);
        proof {
            assert(out@ =~= s@.take(it.index() + 1));
        }
    }
    proof {
        assert(out@ =~= s@);
    }
    out
}

} // verus!
