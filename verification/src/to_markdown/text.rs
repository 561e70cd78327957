//! Characters and strings: what the serializer asks of them.

use vstd::prelude::*;

verus! {

/// Whether `c` has the Unicode property `White_Space`: the tab, the line
/// feed, the vertical tab, the form feed, the carriage return, the space,
/// the next line character, the no-break space, and the spaces and
/// separators beyond them.
pub open spec fn is_unicode_whitespace(c: char) -> bool {
    ||| '\u{9}' <= c <= '\u{D}'
    ||| c == '\u{20}'
    ||| c == '\u{85}'
    ||| c == '\u{A0}'
    ||| c == '\u{1680}'
    ||| '\u{2000}' <= c <= '\u{200A}'
    ||| c == '\u{2028}'
    ||| c == '\u{2029}'
    ||| c == '\u{202F}'
    ||| c == '\u{205F}'
    ||| c == '\u{3000}'
}

/// Whether `c` is of the Unicode general category `Cc`: a control
/// character.
pub open spec fn is_unicode_control(c: char) -> bool {
    c <= '\u{1F}' || '\u{7F}' <= c <= '\u{9F}'
}

/// Whether `c` has the Unicode property `White_Space`.
pub(crate) fn is_whitespace(c: char) -> (b: bool)
    ensures
        b == is_unicode_whitespace(c),
{
    ('\u{9}' <= c && c <= '\u{D}') || c == '\u{20}' || c == '\u{85}' || c == '\u{A0}' || c
        == '\u{1680}' || ('\u{2000}' <= c && c <= '\u{200A}') || c == '\u{2028}' || c
        == '\u{2029}' || c == '\u{202F}' || c == '\u{205F}' || c == '\u{3000}'
}

/// Whether `c` is of the Unicode general category `Cc`.
pub(crate) fn is_control(c: char) -> (b: bool)
    ensures
        b == is_unicode_control(c),
{
    c <= '\u{1F}' || ('\u{7F}' <= c && c <= '\u{9F}')
}

/// Calls `String::push`: the string grows by the character at its end.
#[verifier::external_body]
pub(crate) fn push_char(value: &mut String, c: char)
    ensures
        final(value)@ == old(value)@.push(c),
{
    value.push(c)
}

/// An ASCII punctuation character: one that a backslash in front of it
/// escapes.
pub open spec fn is_punctuation(c: char) -> bool {
    ||| '!' <= c <= '/'
    ||| ':' <= c <= '@'
    ||| '[' <= c <= '`'
    ||| '{' <= c <= '~'
}

/// Whether `c` is an ASCII punctuation character.
pub fn punctuation(c: char) -> (b: bool)
    ensures
        b == is_punctuation(c),
{
    ('!' <= c && c <= '/') || (':' <= c && c <= '@') || ('[' <= c && c <= '`') || ('{' <= c && c
        <= '~')
}

/// The string of `chars`.
pub fn string_of(chars: &Vec<char>) -> (value: String)
    ensures
        value@ == chars@,
{
    let mut value = String::new();
    let mut i: usize = 0;
    while i < chars.len()
        invariant
            i <= chars.len(),
            value@ == chars@.take(i as int),
        decreases chars.len() - i,
    {
        push_char(&mut value, chars[i]);
        proof {
            assert(chars@.take(i + 1) =~= chars@.take(i as int).push(chars@[i as int]));
        }
        i = i + 1;
    }
    proof {
        assert(chars@.take(i as int) =~= chars@);
    }
    value
}

/// Put `more` behind `chars`.
pub fn extend(chars: &mut Vec<char>, more: &Vec<char>)
    ensures
        final(chars)@ == old(chars)@ + more@,
{
    let mut i: usize = 0;
    while i < more.len()
        invariant
            i <= more.len(),
            chars@ == old(chars)@ + more@.take(i as int),
        decreases more.len() - i,
    {
        chars.push(more[i]);
        proof {
            assert(more@.take(i + 1) =~= more@.take(i as int).push(more@[i as int]));
            assert(chars@ =~= old(chars)@ + more@.take(i + 1));
        }
        i = i + 1;
    }
    proof {
        assert(more@.take(i as int) =~= more@);
    }
}

} // verus!
