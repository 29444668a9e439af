//! Building text one character at a time.

use vstd::prelude::*;
use vstd::std_specs::iter::IteratorSpec;

verus! {

/// Whether `i` is a Unicode scalar value.
pub open spec fn is_scalar_value(i: u32) -> bool {
    i <= 0xD7FF || 0xE000 <= i <= 0x10FFFF
}

/// `char::from_u32`: the character with the scalar value `i`, or nothing
/// where `i` is a surrogate or lies beyond the last code point.
pub assume_specification[ char::from_u32 ](i: u32) -> (r: Option<char>)
    ensures
        is_scalar_value(i) ==> r == Some(i as char),
        !is_scalar_value(i) ==> r.is_none(),
;

/// `String::push`: the character goes to the end of the string.
pub assume_specification[ String::push ](s: &mut String, c: char)
    ensures
        final(s)@ == old(s)@.push(c),
;

/// Whether `c` has the Unicode property White_Space: what
/// `char::is_whitespace` answers.
pub uninterp spec fn is_space(c: char) -> bool;

/// Whether `c` has the Unicode property Alphabetic: what
/// `char::is_alphabetic` answers.
pub uninterp spec fn is_letter(c: char) -> bool;

/// Whether `c` is alphabetic or numeric by its Unicode properties: what
/// `char::is_alphanumeric` answers.
pub uninterp spec fn is_letter_or_number(c: char) -> bool;

/// `char::is_whitespace`: whether the character has the property White_Space.
pub assume_specification[ char::is_whitespace ](c: char) -> (b: bool)
    ensures
        b == is_space(c),
;

/// `char::is_alphabetic`: whether the character has the property Alphabetic.
pub assume_specification[ char::is_alphabetic ](c: char) -> (b: bool)
    ensures
        b == is_letter(c),
;

/// `char::is_alphanumeric`: whether the character is alphabetic or numeric.
pub assume_specification[ char::is_alphanumeric ](c: char) -> (b: bool)
    ensures
        b == is_letter_or_number(c),
;

/// The characters of `text`, in order.
pub fn chars_of(text: &str) -> (chars: Vec<char>)
    ensures
        chars@ == text@,
{
    let mut chars: Vec<char> = Vec::new();
    for c in it: text.chars()
        invariant
            it.seq() == text@,
            chars@ == text@.take(it.index() as int),
    {
        assert(text@.take(it.index() + 1) =~= text@.take(it.index() as int).push(c));
        chars.push(c);
    }
    assert(text@.take(text@.len() as int) =~= text@);
    chars
}

/// The text of the characters of `chars` from `from` up to, and not
/// including, `upto`.
pub fn string_of(chars: &Vec<char>, from: usize, upto: usize) -> (text: String)
    requires
        from <= upto <= chars@.len(),
    ensures
        text@ == chars@.subrange(from as int, upto as int),
{
    let mut text = String::new();
    let mut i: usize = from;
    while i < upto
        invariant
            from <= i <= upto <= chars@.len(),
            text@ == chars@.subrange(from as int, i as int),
        decreases upto - i,
    {
        text.push(chars[i]);
        assert(chars@.subrange(from as int, i + 1) =~= chars@.subrange(from as int, i as int).push(
            chars@[i as int],
        ));
        i += 1;
    }
    text
}

/// The text of all the characters of `chars`.
pub fn text_of(chars: &Vec<char>) -> (text: String)
    ensures
        text@ == chars@,
{
    let text = string_of(chars, 0, chars.len());
    assert(chars@.subrange(0, chars@.len() as int) =~= chars@);
    text
}

/// Whether `chars` reads `word`.
pub fn reads(chars: &Vec<char>, word: &str) -> (same: bool)
    ensures
        same == (chars@ == word@),
{
    let expected = chars_of(word);
    if chars.len() != expected.len() {
        return false;
    }
    let mut i: usize = 0;
    while i < chars.len()
        invariant
            i <= chars@.len(),
            chars@.len() == expected@.len(),
            expected@ == word@,
            forall|j: int| 0 <= j < i ==> chars@[j] == expected@[j],
        decreases chars@.len() - i,
    {
        if chars[i] != expected[i] {
            assert(chars@[i as int] != word@[i as int]);
            return false;
        }
        i += 1;
    }
    assert(chars@ =~= expected@);
    true
}

} // verus!
