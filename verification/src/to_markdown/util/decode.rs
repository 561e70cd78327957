//! Reading escaped text back: what a parser makes of backslash escapes and
//! of hexadecimal character references, and the proof that it makes of safe
//! text the text that was made safe.

use vstd::prelude::*;
use crate::to_markdown::construct_name::ConstructName;
use crate::to_markdown::text::is_punctuation;
use crate::to_markdown::util::safe::{
    Scope, before_punctuation, char_ref, hex_digit, hex_text, is_alpha, next, safe_from,
    safe_text, scope_of, unsafe_at, written,
};

verus! {

/// Whether `c` is a hexadecimal digit.
pub open spec fn is_hex(c: char) -> bool {
    '0' <= c <= '9' || 'A' <= c <= 'F' || 'a' <= c <= 'f'
}

/// The number that the hexadecimal digit `c` stands for.
pub open spec fn hex_value(c: char) -> int {
    if '0' <= c <= '9' {
        c as int - '0' as int
    } else if 'A' <= c <= 'F' {
        c as int - 'A' as int + 10
    } else {
        c as int - 'a' as int + 10
    }
}

/// The number that the hexadecimal digits `digits` stand for.
pub open spec fn hex_number(digits: Seq<char>) -> int
    decreases digits.len(),
{
    if digits.len() == 0 {
        0
    } else {
        hex_number(digits.drop_last()) * 16 + hex_value(digits.last())
    }
}

/// Number of hexadecimal digits in `s` from `from` on.
pub open spec fn hex_run(s: Seq<char>, from: int) -> int
    decreases s.len() - from,
{
    if 0 <= from < s.len() && is_hex(s[from]) {
        1 + hex_run(s, from + 1)
    } else {
        0
    }
}

/// Whether `n` is the number of a character.
pub open spec fn is_scalar(n: int) -> bool {
    0 <= n <= 0xD7FF || 0xE000 <= n <= 0x10FFFF
}

/// The character that the reference at the start of `s` stands for, and
/// the length of the reference; nothing if `s` does not start with `&#x`,
/// one to six hexadecimal digits that are the number of a character, and
/// `;`.
pub open spec fn reference_at(s: Seq<char>) -> Option<(char, int)> {
    let digits = hex_run(s, 3);
    if s.len() >= 5 && s[0] == '&' && s[1] == '#' && (s[2] == 'x' || s[2] == 'X') && 1 <= digits
        <= 6 && 3 + digits < s.len() && s[3 + digits] == ';' && is_scalar(
        hex_number(s.subrange(3, 3 + digits)),
    ) {
        Some((hex_number(s.subrange(3, 3 + digits)) as char, 4 + digits))
    } else {
        None
    }
}

/// The text that a parser reads from `s`: a backslash in front of a
/// punctuation character stands for that character, a hexadecimal character
/// reference for the character of that number, and every other character
/// for itself.
pub open spec fn decoded(s: Seq<char>) -> Seq<char>
    decreases s.len(),
{
    if s.len() == 0 {
        Seq::empty()
    } else if s[0] == '\\' && s.len() > 1 && is_punctuation(s[1]) {
        seq![s[1]] + decoded(s.skip(2))
    } else {
        match reference_at(s) {
            Some((c, n)) => seq![c] + decoded(s.skip(n)),
            None => seq![s[0]] + decoded(s.skip(1)),
        }
    }
}

proof fn lemma_hex_digit(n: int)
    requires
        0 <= n < 16,
    ensures
        is_hex(hex_digit(n)),
        hex_value(hex_digit(n)) == n,
        hex_digit(n) != ';',
{
}

/// The hexadecimal digits of a number stand for the number.
pub proof fn lemma_hex_text(v: nat)
    ensures
        hex_text(v).len() >= 1,
        forall|i: int| 0 <= i < hex_text(v).len() ==> is_hex(#[trigger] hex_text(v)[i]),
        hex_number(hex_text(v)) == v,
        v < 0x10 ==> hex_text(v).len() <= 1,
        v < 0x100 ==> hex_text(v).len() <= 2,
        v < 0x1000 ==> hex_text(v).len() <= 3,
        v < 0x10000 ==> hex_text(v).len() <= 4,
        v < 0x100000 ==> hex_text(v).len() <= 5,
        v < 0x1000000 ==> hex_text(v).len() <= 6,
    decreases v,
{
    if v < 16 {
        lemma_hex_digit(v as int);
        let text = hex_text(v);
        assert(text.drop_last() =~= Seq::empty());
        assert(hex_number(text.drop_last()) == 0);
    } else {
        lemma_hex_text(v / 16);
        lemma_hex_digit((v % 16) as int);
        let head = hex_text(v / 16);
        let text = hex_text(v);
        assert(text.drop_last() =~= head);
        assert forall|i: int| 0 <= i < text.len() implies is_hex(#[trigger] text[i]) by {
            if i < head.len() {
                assert(text[i] == head[i]);
            }
        }
    }
}

/// Digits with something else behind them are as many as they are.
proof fn lemma_hex_run(s: Seq<char>, from: int, n: int)
    requires
        0 <= from,
        0 <= n,
        from + n < s.len(),
        forall|i: int| from <= i < from + n ==> is_hex(#[trigger] s[i]),
        !is_hex(s[from + n]),
    ensures
        hex_run(s, from) == n,
    decreases n,
{
    if n > 0 {
        lemma_hex_run(s, from + 1, n - 1);
    }
}

/// A character reference is read as the character that it was written
/// for.
pub proof fn lemma_reference(c: char, rest: Seq<char>)
    ensures
        reference_at(char_ref(c) + rest) == Some((c, char_ref(c).len() as int)),
        char_ref(c).len() >= 5,
        char_ref(c)[0] == '&',
{
    let digits = hex_text(c as nat);
    let s = char_ref(c) + rest;
    lemma_hex_text(c as nat);
    let n = digits.len() as int;
    assert(s[0] == '&' && s[1] == '#' && s[2] == 'x');
    assert forall|i: int| 3 <= i < 3 + n implies is_hex(#[trigger] s[i]) by {
        assert(s[i] == digits[i - 3]);
    }
    assert(s[3 + n] == ';');
    lemma_hex_run(s, 3, n);
    assert(s.subrange(3, 3 + n) =~= digits);
    assert((c as nat) < 0x1000000);
    assert(is_scalar(c as int));
    assert((c as int) as char == c);
}

/// An escaped punctuation character is read as the character.
pub proof fn lemma_decoded_escape(c: char, rest: Seq<char>)
    requires
        is_punctuation(c),
    ensures
        decoded(seq!['\\', c] + rest) == seq![c] + decoded(rest),
{
    let s = seq!['\\', c] + rest;
    assert(s[0] == '\\' && s[1] == c);
    assert(s.skip(2) =~= rest);
}

/// A character reference is read as the character.
pub proof fn lemma_decoded_reference(c: char, rest: Seq<char>)
    ensures
        decoded(char_ref(c) + rest) == seq![c] + decoded(rest),
{
    let s = char_ref(c) + rest;
    lemma_reference(c, rest);
    assert(s[0] == '&');
    assert(s.skip(char_ref(c).len() as int) =~= rest);
}

/// A character that begins neither an escape nor a reference is read as
/// itself.
pub proof fn lemma_decoded_plain(c: char, rest: Seq<char>)
    requires
        c == '\\' ==> rest.len() == 0 || !is_punctuation(rest[0]),
        c == '&' ==> rest.len() == 0 || rest[0] != '#',
    ensures
        decoded(seq![c] + rest) == seq![c] + decoded(rest),
{
    let s = seq![c] + rest;
    assert(s[0] == c);
    if rest.len() > 0 {
        assert(s[1] == rest[0]);
    }
    assert(s.skip(1) =~= rest);
    if c != '&' {
        assert(reference_at(s) is None);
    } else if s.len() >= 2 {
        assert(s[1] != '#');
    }
}

/// What is written for a character is not empty, and begins with a
/// punctuation character where the character is escaped, and with the
/// character itself where it is not.
pub proof fn lemma_written_first(
    scope: Scope,
    encode: Option<char>,
    whole: Seq<char>,
    p: int,
    end: int,
)
    requires
        0 <= p < end <= whole.len(),
    ensures
        written(scope, encode, whole, p, end).len() > 0,
        safe_from(scope, encode, whole, p, end).len() > 0,
        safe_from(scope, encode, whole, p, end)[0] == written(scope, encode, whole, p, end)[0],
        unsafe_at(scope, whole, p) ==> is_punctuation(written(scope, encode, whole, p, end)[0])
            && written(scope, encode, whole, p, end)[0] != '#',
        !unsafe_at(scope, whole, p) ==> written(scope, encode, whole, p, end)[0] == whole[p],
{
    lemma_reference(whole[p], Seq::empty());
}

/// What safe text is read as is the text that was made safe: from any
/// place in the text on.
pub proof fn lemma_decoded_safe_from(
    scope: Scope,
    encode: Option<char>,
    whole: Seq<char>,
    p: int,
    end: int,
)
    requires
        0 <= p <= end <= whole.len(),
    ensures
        decoded(safe_from(scope, encode, whole, p, end)) == whole.subrange(p, end),
    decreases end - p,
{
    if p >= end {
        assert(whole.subrange(p, end) =~= Seq::empty());
    } else {
        let c = whole[p];
        let rest = safe_from(scope, encode, whole, p + 1, end);
        lemma_decoded_safe_from(scope, encode, whole, p + 1, end);
        assert(whole.subrange(p, end) =~= seq![c] + whole.subrange(p + 1, end));
        if p + 1 < end {
            lemma_written_first(scope, encode, whole, p + 1, end);
        }
        if unsafe_at(scope, whole, p) {
            if is_punctuation(c) && encode != Some(c) {
                lemma_decoded_escape(c, rest);
            } else {
                lemma_decoded_reference(c, rest);
            }
        } else if c == '\\' && before_punctuation(scope, whole, p, end) {
            lemma_decoded_escape('\\', rest);
        } else {
            if c == '&' && rest.len() > 0 {
                assert(next(whole, p) == Some(whole[p + 1]));
            }
            lemma_decoded_plain(c, rest);
        }
    }
}

/// Safe text is read back as the text that was made safe, whatever the
/// constructs and whatever stands around it.
pub proof fn lemma_safe_round_trip(
    stack: Seq<ConstructName>,
    input: Seq<char>,
    before: Seq<char>,
    after: Seq<char>,
    encode: Option<char>,
)
    ensures
        decoded(safe_text(stack, input, before, after, encode)) == input,
{
    let whole = before + input + after;
    lemma_decoded_safe_from(
        scope_of(stack),
        encode,
        whole,
        before.len() as int,
        (before.len() + input.len()) as int,
    );
    assert(whole.subrange(before.len() as int, (before.len() + input.len()) as int) =~= input);
}

// ----- What stays inside -----

/// Whether a parser that reads `s` meets the character `c` as itself:
/// neither behind a backslash that escapes it nor as what a character
/// reference stands for.
pub open spec fn bare(s: Seq<char>, c: char) -> bool
    decreases s.len(),
{
    if s.len() == 0 {
        false
    } else if s[0] == '\\' && s.len() > 1 && is_punctuation(s[1]) {
        bare(s.skip(2), c)
    } else {
        match reference_at(s) {
            Some((_, n)) => bare(s.skip(n), c),
            None => s[0] == c || bare(s.skip(1), c),
        }
    }
}

/// Whether the character `c` is escaped wherever it stands, where `scope`
/// holds: it would end what the text is put into, or begin something inside
/// it.
pub open spec fn guarded(scope: Scope, c: char) -> bool {
    ||| scope.label_or_reference && (c == '[' || c == ']')
    ||| scope.destination_literal && (c == '<' || c == '>' || c == '\r' || c == '\n')
    ||| scope.destination_raw && (c == '<' || c == '(' || c == ')')
    ||| scope.title_quote && c == '"'
    ||| scope.title_apostrophe && c == '\''
    ||| scope.title_paren && (c == '(' || c == ')')
}

/// A character that is guarded is escaped wherever it stands.
pub proof fn lemma_guarded(scope: Scope, whole: Seq<char>, p: int, c: char)
    requires
        guarded(scope, c),
        0 <= p < whole.len(),
        whole[p] == c,
    ensures
        unsafe_at(scope, whole, p),
        c != '\\',
        c != '&',
{
}

proof fn lemma_bare_escape(c: char, rest: Seq<char>, d: char)
    requires
        is_punctuation(c),
    ensures
        bare(seq!['\\', c] + rest, d) == bare(rest, d),
{
    let s = seq!['\\', c] + rest;
    assert(s[0] == '\\' && s[1] == c);
    assert(s.skip(2) =~= rest);
}

proof fn lemma_bare_reference(c: char, rest: Seq<char>, d: char)
    ensures
        bare(char_ref(c) + rest, d) == bare(rest, d),
{
    let s = char_ref(c) + rest;
    lemma_reference(c, rest);
    assert(s[0] == '&');
    assert(s.skip(char_ref(c).len() as int) =~= rest);
}

proof fn lemma_bare_plain(c: char, rest: Seq<char>, d: char)
    requires
        c == '\\' ==> rest.len() == 0 || !is_punctuation(rest[0]),
        c == '&' ==> rest.len() == 0 || rest[0] != '#',
    ensures
        bare(seq![c] + rest, d) == (c == d || bare(rest, d)),
{
    let s = seq![c] + rest;
    assert(s[0] == c);
    if rest.len() > 0 {
        assert(s[1] == rest[0]);
    }
    assert(s.skip(1) =~= rest);
    if c != '&' {
        assert(reference_at(s) is None);
    } else if s.len() >= 2 {
        assert(s[1] != '#');
    }
}

/// Safe text holds no guarded character that a parser meets as itself:
/// from any place in the text on.
pub proof fn lemma_guarded_safe_from(
    scope: Scope,
    encode: Option<char>,
    whole: Seq<char>,
    p: int,
    end: int,
    c: char,
)
    requires
        0 <= p <= end <= whole.len(),
        guarded(scope, c),
    ensures
        !bare(safe_from(scope, encode, whole, p, end), c),
    decreases end - p,
{
    if p < end {
        let d = whole[p];
        let rest = safe_from(scope, encode, whole, p + 1, end);
        lemma_guarded_safe_from(scope, encode, whole, p + 1, end, c);
        if p + 1 < end {
            lemma_written_first(scope, encode, whole, p + 1, end);
        }
        if d == c {
            lemma_guarded(scope, whole, p, c);
        }
        if unsafe_at(scope, whole, p) {
            if is_punctuation(d) && encode != Some(d) {
                lemma_bare_escape(d, rest, c);
            } else {
                lemma_bare_reference(d, rest, c);
            }
        } else if d == '\\' && before_punctuation(scope, whole, p, end) {
            lemma_bare_escape('\\', rest, c);
        } else {
            if d == '&' && rest.len() > 0 {
                assert(next(whole, p) == Some(whole[p + 1]));
            }
            lemma_bare_plain(d, rest, c);
        }
    }
}

/// Safe text cannot end what it is put into: a parser that reads it meets
/// no bracket as itself in a label or a reference, no angle bracket and no
/// line ending in a destination between angle brackets, no parenthesis and
/// no opening angle bracket in a destination without them, no parenthesis
/// in a title between parentheses, and in a title between quotation marks or
/// apostrophes not the mark that ends it.
pub proof fn lemma_safe_stays_inside(
    stack: Seq<ConstructName>,
    input: Seq<char>,
    before: Seq<char>,
    after: Seq<char>,
    encode: Option<char>,
    c: char,
)
    requires
        guarded(scope_of(stack), c),
    ensures
        !bare(safe_text(stack, input, before, after, encode), c),
{
    lemma_guarded_safe_from(
        scope_of(stack),
        encode,
        before + input + after,
        before.len() as int,
        (before.len() + input.len()) as int,
        c,
    );
}

// ----- Where the text ends -----

/// How many characters of `s` a parser reads before it meets the character
/// `c` as itself; all of them if it meets none. An escape and a character
/// reference are read as a whole.
pub open spec fn reach(s: Seq<char>, c: char) -> int
    decreases s.len(),
{
    if s.len() == 0 {
        0
    } else if s[0] == '\\' && s.len() > 1 && is_punctuation(s[1]) {
        2 + reach(s.skip(2), c)
    } else {
        match reference_at(s) {
            Some((_, n)) => n + reach(s.skip(n), c),
            None => if s[0] == c {
                0
            } else {
                1 + reach(s.skip(1), c)
            },
        }
    }
}

proof fn lemma_reach_escape(c: char, rest: Seq<char>, d: char)
    requires
        is_punctuation(c),
    ensures
        reach(seq!['\\', c] + rest, d) == 2 + reach(rest, d),
{
    let s = seq!['\\', c] + rest;
    assert(s[0] == '\\' && s[1] == c);
    assert(s.skip(2) =~= rest);
}

proof fn lemma_reach_reference(c: char, rest: Seq<char>, d: char)
    ensures
        reach(char_ref(c) + rest, d) == char_ref(c).len() + reach(rest, d),
{
    let s = char_ref(c) + rest;
    lemma_reference(c, rest);
    assert(s[0] == '&');
    assert(s.skip(char_ref(c).len() as int) =~= rest);
}

proof fn lemma_reach_plain(c: char, rest: Seq<char>, d: char)
    requires
        c == '\\' ==> rest.len() == 0 || !is_punctuation(rest[0]),
        c == '&' ==> rest.len() == 0 || rest[0] != '#',
    ensures
        reach(seq![c] + rest, d) == if c == d {
            0
        } else {
            1 + reach(rest, d)
        },
{
    let s = seq![c] + rest;
    assert(s[0] == c);
    if rest.len() > 0 {
        assert(s[1] == rest[0]);
    }
    assert(s.skip(1) =~= rest);
    if c != '&' {
        assert(reference_at(s) is None);
    } else if s.len() >= 2 {
        assert(s[1] != '#');
    }
}

/// Safe text ends where it ends: a parser that reads it, with the guarded
/// character `c` and whatever else behind it, meets `c` as itself behind
/// the safe text and not before. `c` is the character that stands behind
/// the text that was made safe.
pub proof fn lemma_reach_safe_from(
    scope: Scope,
    encode: Option<char>,
    whole: Seq<char>,
    p: int,
    end: int,
    tail: Seq<char>,
)
    requires
        0 <= p <= end < whole.len(),
        guarded(scope, whole[end]),
        tail.len() > 0,
        tail[0] == whole[end],
    ensures
        reach(safe_from(scope, encode, whole, p, end) + tail, whole[end]) == safe_from(
            scope,
            encode,
            whole,
            p,
            end,
        ).len(),
    decreases end - p,
{
    let c = whole[end];
    lemma_guarded(scope, whole, end, c);
    if p >= end {
        assert(safe_from(scope, encode, whole, p, end) + tail =~= tail);
        assert(reference_at(tail) is None);
    } else {
        let d = whole[p];
        let rest = safe_from(scope, encode, whole, p + 1, end);
        let first = written(scope, encode, whole, p, end);
        lemma_reach_safe_from(scope, encode, whole, p + 1, end, tail);
        assert(safe_from(scope, encode, whole, p, end) + tail =~= first + (rest + tail));
        if p + 1 < end {
            lemma_written_first(scope, encode, whole, p + 1, end);
            assert((rest + tail)[0] == rest[0]);
        } else {
            assert(rest + tail =~= tail);
        }
        if d == c {
            lemma_guarded(scope, whole, p, c);
        }
        if unsafe_at(scope, whole, p) {
            if is_punctuation(d) && encode != Some(d) {
                lemma_reach_escape(d, rest + tail, c);
            } else {
                lemma_reach_reference(d, rest + tail, c);
            }
        } else if d == '\\' && before_punctuation(scope, whole, p, end) {
            lemma_reach_escape('\\', rest + tail, c);
        } else {
            assert(next(whole, p) == Some(whole[p + 1]));
            lemma_reach_plain(d, rest + tail, c);
        }
    }
}

/// Safe text ends where it ends: a parser that reads the safe text, with
/// `after` and whatever else behind it, meets the first character of
/// `after` as itself behind the safe text and not before, where that
/// character is guarded.
pub proof fn lemma_safe_ends(
    stack: Seq<ConstructName>,
    input: Seq<char>,
    before: Seq<char>,
    after: Seq<char>,
    encode: Option<char>,
    rest: Seq<char>,
)
    requires
        after.len() > 0,
        guarded(scope_of(stack), after[0]),
    ensures
        reach(safe_text(stack, input, before, after, encode) + (after + rest), after[0])
            == safe_text(stack, input, before, after, encode).len(),
{
    let whole = before + input + after;
    let end = (before.len() + input.len()) as int;
    assert(whole[end] == after[0]);
    lemma_reach_safe_from(scope_of(stack), encode, whole, before.len() as int, end, after + rest);
}

} // verus!
