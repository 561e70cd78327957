//! Making text safe: escaping the characters that would be read as syntax
//! where the text is put.

use vstd::prelude::*;
use crate::code::chars_of;
use crate::to_markdown::construct_name::ConstructName;
use crate::to_markdown::state::State;
use crate::to_markdown::text::{extend, is_punctuation, punctuation, string_of};

verus! {

/// What stands around the text that is made safe.
#[derive(Debug)]
pub struct SafeConfig {
    /// What stands in front of the text.
    pub before: String,
    /// What stands behind the text.
    pub after: String,
    /// A character that is written as a character reference where it has to
    /// be escaped, and not with a backslash.
    pub encode: Option<char>,
}

impl SafeConfig {
    pub fn new(before: &str, after: &str, encode: Option<char>) -> (config: SafeConfig)
        ensures
            config.before@ == before@,
            config.after@ == after@,
            config.encode == encode,
    {
        SafeConfig { before: before.to_owned(), after: after.to_owned(), encode }
    }
}

/// What the constructs that a serializer is in mean for escaping.
#[derive(Clone, Copy, Debug, PartialEq, Eq, Structural)]
pub struct Scope {
    pub phrasing: bool,
    /// In a construct that holds no phrasing of its own: an autolink, a
    /// destination, a reference or a title.
    pub in_span: bool,
    pub heading_atx: bool,
    pub label_or_reference: bool,
    pub destination_literal: bool,
    pub destination_raw: bool,
    pub title_quote: bool,
    pub title_apostrophe: bool,
    pub title_paren: bool,
    pub lang_grave_accent: bool,
    pub lang_tilde: bool,
    pub meta_grave_accent: bool,
    pub meta_tilde: bool,
}

/// What the constructs of `stack` mean for escaping.
pub open spec fn scope_of(stack: Seq<ConstructName>) -> Scope {
    Scope {
        phrasing: stack.contains(ConstructName::Phrasing),
        in_span: stack.contains(ConstructName::Autolink) || stack.contains(
            ConstructName::DestinationLiteral,
        ) || stack.contains(ConstructName::DestinationRaw) || stack.contains(
            ConstructName::Reference,
        ) || stack.contains(ConstructName::TitleQuote) || stack.contains(
            ConstructName::TitleApostrophe,
        ) || stack.contains(ConstructName::TitleParen),
        heading_atx: stack.contains(ConstructName::HeadingAtx),
        label_or_reference: stack.contains(ConstructName::Label) || stack.contains(
            ConstructName::Reference,
        ),
        destination_literal: stack.contains(ConstructName::DestinationLiteral),
        destination_raw: stack.contains(ConstructName::DestinationRaw),
        title_quote: stack.contains(ConstructName::TitleQuote),
        title_apostrophe: stack.contains(ConstructName::TitleApostrophe),
        title_paren: stack.contains(ConstructName::TitleParen),
        lang_grave_accent: stack.contains(ConstructName::CodeFencedLangGraveAccent),
        lang_tilde: stack.contains(ConstructName::CodeFencedLangTilde),
        meta_grave_accent: stack.contains(ConstructName::CodeFencedMetaGraveAccent),
        meta_tilde: stack.contains(ConstructName::CodeFencedMetaTilde),
    }
}

/// Whether `name` is in `stack`.
pub fn in_stack(stack: &Vec<ConstructName>, name: ConstructName) -> (found: bool)
    ensures
        found == stack@.contains(name),
{
    let mut i: usize = 0;
    while i < stack.len()
        invariant
            i <= stack.len(),
            forall|k: int| 0 <= k < i ==> stack@[k] != name,
        decreases stack.len() - i,
    {
        if stack[i] == name {
            return true;
        }
        i = i + 1;
    }
    false
}

/// What the constructs of `stack` mean for escaping.
pub fn scope(stack: &Vec<ConstructName>) -> (found: Scope)
    ensures
        found == scope_of(stack@),
{
    let destination_literal = in_stack(stack, ConstructName::DestinationLiteral);
    let destination_raw = in_stack(stack, ConstructName::DestinationRaw);
    let reference = in_stack(stack, ConstructName::Reference);
    let title_quote = in_stack(stack, ConstructName::TitleQuote);
    let title_apostrophe = in_stack(stack, ConstructName::TitleApostrophe);
    let title_paren = in_stack(stack, ConstructName::TitleParen);
    Scope {
        phrasing: in_stack(stack, ConstructName::Phrasing),
        in_span: in_stack(stack, ConstructName::Autolink) || destination_literal
            || destination_raw || reference || title_quote || title_apostrophe || title_paren,
        heading_atx: in_stack(stack, ConstructName::HeadingAtx),
        label_or_reference: in_stack(stack, ConstructName::Label) || reference,
        destination_literal,
        destination_raw,
        title_quote,
        title_apostrophe,
        title_paren,
        lang_grave_accent: in_stack(stack, ConstructName::CodeFencedLangGraveAccent),
        lang_tilde: in_stack(stack, ConstructName::CodeFencedLangTilde),
        meta_grave_accent: in_stack(stack, ConstructName::CodeFencedMetaGraveAccent),
        meta_tilde: in_stack(stack, ConstructName::CodeFencedMetaTilde),
    }
}

// ----- Characters -----

pub open spec fn is_eol(c: char) -> bool {
    c == '\r' || c == '\n'
}

pub open spec fn is_blank(c: char) -> bool {
    c == ' ' || c == '\t'
}

pub open spec fn is_digit(c: char) -> bool {
    '0' <= c <= '9'
}

pub open spec fn is_alpha(c: char) -> bool {
    'a' <= c <= 'z' || 'A' <= c <= 'Z'
}

fn eol(c: char) -> (b: bool)
    ensures
        b == is_eol(c),
{
    c == '\r' || c == '\n'
}

fn blank(c: char) -> (b: bool)
    ensures
        b == is_blank(c),
{
    c == ' ' || c == '\t'
}

fn digit(c: char) -> (b: bool)
    ensures
        b == is_digit(c),
{
    '0' <= c && c <= '9'
}

fn alpha(c: char) -> (b: bool)
    ensures
        b == is_alpha(c),
{
    ('a' <= c && c <= 'z') || ('A' <= c && c <= 'Z')
}

// ----- Where a character stands -----

/// Where the run of digits begins that ends in front of `p`.
pub open spec fn digits_start(whole: Seq<char>, p: int) -> int
    decreases p,
{
    if 0 < p <= whole.len() && is_digit(whole[p - 1]) {
        digits_start(whole, p - 1)
    } else {
        p
    }
}

/// Where the run of spaces and tabs begins that ends in front of `p`.
pub open spec fn blanks_start(whole: Seq<char>, p: int) -> int
    decreases p,
{
    if 0 < p <= whole.len() && is_blank(whole[p - 1]) {
        blanks_start(whole, p - 1)
    } else {
        p
    }
}

/// Whether a line begins at `p`.
pub open spec fn line_start(whole: Seq<char>, p: int) -> bool {
    p <= 0 || (p <= whole.len() && is_eol(whole[p - 1]))
}

/// Whether nothing but spaces and tabs stands in the line in front of `p`.
pub open spec fn at_break(whole: Seq<char>, p: int) -> bool {
    line_start(whole, blanks_start(whole, p))
}

/// Whether digits stand in front of `p`, and nothing but spaces and tabs in
/// the line in front of them.
pub open spec fn at_break_behind_digits(whole: Seq<char>, p: int) -> bool {
    digits_start(whole, p) < p && at_break(whole, digits_start(whole, p))
}

/// Whether a line ending stands in front of `p`.
pub open spec fn behind_eol(whole: Seq<char>, p: int) -> bool {
    0 < p <= whole.len() && is_eol(whole[p - 1])
}

/// Whether `c` stands in front of `p`.
pub open spec fn behind(whole: Seq<char>, p: int, c: char) -> bool {
    0 < p <= whole.len() && whole[p - 1] == c
}

/// The character behind the one at `p`, if there is one.
pub open spec fn next(whole: Seq<char>, p: int) -> Option<char> {
    if 0 <= p && p + 1 < whole.len() {
        Some(whole[p + 1])
    } else {
        None
    }
}

/// Whether the character at `p`, where `scope` holds, would be read as
/// syntax, or would change how what stands around it is read.
pub open spec fn unsafe_at(scope: Scope, whole: Seq<char>, p: int) -> bool {
    let c = whole[p];
    let after = next(whole, p);
    let before_eol = after matches Some(d) && is_eol(d);
    let before_blank_or_eol = after matches Some(d) && (is_blank(d) || is_eol(d));
    let before_tag = after matches Some(d) && (d == '!' || d == '/' || d == '?' || is_alpha(d));
    let open = scope.phrasing && !scope.in_span;
    if c == '\t' || c == ' ' {
        (scope.phrasing && (before_eol || behind_eol(whole, p))) || scope.lang_grave_accent
            || scope.lang_tilde
    } else if c == '\r' || c == '\n' {
        scope.lang_grave_accent || scope.lang_tilde || scope.meta_grave_accent
            || scope.meta_tilde || scope.destination_literal || scope.heading_atx
    } else if c == '!' {
        open && after == Some('[')
    } else if c == '"' {
        scope.title_quote
    } else if c == '#' {
        at_break(whole, p) || (scope.heading_atx && (before_eol || after is None))
    } else if c == '&' {
        after matches Some(d) && (d == '#' || is_alpha(d))
    } else if c == '\'' {
        scope.title_apostrophe
    } else if c == '(' {
        scope.destination_raw || scope.title_paren || (open && behind(whole, p, ']'))
    } else if c == ')' {
        scope.destination_raw || scope.title_paren || at_break_behind_digits(whole, p)
    } else if c == '*' {
        open || (at_break(whole, p) && (before_blank_or_eol || after == Some('*')))
    } else if c == '+' {
        at_break(whole, p) && before_blank_or_eol
    } else if c == '-' {
        at_break(whole, p) && (before_blank_or_eol || after == Some('-'))
    } else if c == '.' {
        at_break_behind_digits(whole, p) && (before_blank_or_eol || after is None)
    } else if c == '<' {
        scope.destination_literal || scope.destination_raw || ((open || at_break(whole, p))
            && before_tag)
    } else if c == '=' {
        at_break(whole, p)
    } else if c == '>' {
        scope.destination_literal || at_break(whole, p)
    } else if c == '[' {
        open || scope.label_or_reference || at_break(whole, p)
    } else if c == '\\' {
        scope.phrasing && before_eol
    } else if c == ']' {
        scope.label_or_reference
    } else if c == '_' {
        open || at_break(whole, p)
    } else if c == '`' {
        open || scope.lang_grave_accent || scope.meta_grave_accent || at_break(whole, p)
    } else if c == '~' {
        at_break(whole, p)
    } else {
        false
    }
}

/// Where the run of digits begins that ends in front of `p`.
fn start_of_digits(whole: &Vec<char>, p: usize) -> (q: usize)
    requires
        p <= whole.len(),
    ensures
        q == digits_start(whole@, p as int),
        q <= p,
{
    let mut q = p;
    while q > 0 && digit(whole[q - 1])
        invariant
            q <= p <= whole.len(),
            digits_start(whole@, q as int) == digits_start(whole@, p as int),
        decreases q,
    {
        q = q - 1;
    }
    q
}

/// Whether nothing but spaces and tabs stands in the line in front of `p`.
fn is_at_break(whole: &Vec<char>, p: usize) -> (b: bool)
    requires
        p <= whole.len(),
    ensures
        b == at_break(whole@, p as int),
{
    let mut q = p;
    while q > 0 && blank(whole[q - 1])
        invariant
            q <= p <= whole.len(),
            blanks_start(whole@, q as int) == blanks_start(whole@, p as int),
        decreases q,
    {
        q = q - 1;
    }
    q == 0 || eol(whole[q - 1])
}

/// Whether digits stand in front of `p`, and nothing but spaces and tabs in
/// the line in front of them.
fn is_at_break_behind_digits(whole: &Vec<char>, p: usize) -> (b: bool)
    requires
        p <= whole.len(),
    ensures
        b == at_break_behind_digits(whole@, p as int),
{
    let q = start_of_digits(whole, p);
    q < p && is_at_break(whole, q)
}

/// Whether the character at `p` has to be escaped where `scope` holds.
pub fn is_unsafe(scope: Scope, whole: &Vec<char>, p: usize) -> (b: bool)
    requires
        p < whole.len(),
    ensures
        b == unsafe_at(scope, whole@, p as int),
{
    let c = whole[p];
    let has_next = p + 1 < whole.len();
    let d = if has_next {
        whole[p + 1]
    } else {
        ' '
    };
    let before_eol = has_next && eol(d);
    let before_blank_or_eol = has_next && (blank(d) || eol(d));
    let before_tag = has_next && (d == '!' || d == '/' || d == '?' || alpha(d));
    let behind_eol = p > 0 && eol(whole[p - 1]);
    let open = scope.phrasing && !scope.in_span;
    if c == '\t' || c == ' ' {
        (scope.phrasing && (before_eol || behind_eol)) || scope.lang_grave_accent
            || scope.lang_tilde
    } else if c == '\r' || c == '\n' {
        scope.lang_grave_accent || scope.lang_tilde || scope.meta_grave_accent
            || scope.meta_tilde || scope.destination_literal || scope.heading_atx
    } else if c == '!' {
        open && has_next && d == '['
    } else if c == '"' {
        scope.title_quote
    } else if c == '#' {
        is_at_break(whole, p) || (scope.heading_atx && (before_eol || !has_next))
    } else if c == '&' {
        has_next && (d == '#' || alpha(d))
    } else if c == '\'' {
        scope.title_apostrophe
    } else if c == '(' {
        scope.destination_raw || scope.title_paren || (open && p > 0 && whole[p - 1] == ']')
    } else if c == ')' {
        scope.destination_raw || scope.title_paren || is_at_break_behind_digits(whole, p)
    } else if c == '*' {
        open || (is_at_break(whole, p) && (before_blank_or_eol || (has_next && d == '*')))
    } else if c == '+' {
        is_at_break(whole, p) && before_blank_or_eol
    } else if c == '-' {
        is_at_break(whole, p) && (before_blank_or_eol || (has_next && d == '-'))
    } else if c == '.' {
        is_at_break_behind_digits(whole, p) && (before_blank_or_eol || !has_next)
    } else if c == '<' {
        scope.destination_literal || scope.destination_raw || ((open || is_at_break(whole, p))
            && before_tag)
    } else if c == '=' {
        is_at_break(whole, p)
    } else if c == '>' {
        scope.destination_literal || is_at_break(whole, p)
    } else if c == '[' {
        open || scope.label_or_reference || is_at_break(whole, p)
    } else if c == '\\' {
        scope.phrasing && before_eol
    } else if c == ']' {
        scope.label_or_reference
    } else if c == '_' {
        open || is_at_break(whole, p)
    } else if c == '`' {
        open || scope.lang_grave_accent || scope.meta_grave_accent || is_at_break(whole, p)
    } else if c == '~' {
        is_at_break(whole, p)
    } else {
        false
    }
}

// ----- Character references -----

/// The hexadecimal digit for `n`.
pub open spec fn hex_digit(n: int) -> char {
    if n == 0 {
        '0'
    } else if n == 1 {
        '1'
    } else if n == 2 {
        '2'
    } else if n == 3 {
        '3'
    } else if n == 4 {
        '4'
    } else if n == 5 {
        '5'
    } else if n == 6 {
        '6'
    } else if n == 7 {
        '7'
    } else if n == 8 {
        '8'
    } else if n == 9 {
        '9'
    } else if n == 10 {
        'A'
    } else if n == 11 {
        'B'
    } else if n == 12 {
        'C'
    } else if n == 13 {
        'D'
    } else if n == 14 {
        'E'
    } else {
        'F'
    }
}

/// The number `v` in hexadecimal digits, without leading zeros.
pub open spec fn hex_text(v: nat) -> Seq<char>
    decreases v,
{
    if v < 16 {
        seq![hex_digit(v as int)]
    } else {
        hex_text(v / 16).push(hex_digit((v % 16) as int))
    }
}

/// The character reference for `c`: `&#x`, the number of the character in
/// hexadecimal digits, and `;`.
pub open spec fn char_ref(c: char) -> Seq<char> {
    seq!['&', '#', 'x'] + hex_text(c as nat) + seq![';']
}

fn hex_digit_of(n: u32) -> (c: char)
    requires
        n < 16,
    ensures
        c == hex_digit(n as int),
{
    if n == 0 {
        '0'
    } else if n == 1 {
        '1'
    } else if n == 2 {
        '2'
    } else if n == 3 {
        '3'
    } else if n == 4 {
        '4'
    } else if n == 5 {
        '5'
    } else if n == 6 {
        '6'
    } else if n == 7 {
        '7'
    } else if n == 8 {
        '8'
    } else if n == 9 {
        '9'
    } else if n == 10 {
        'A'
    } else if n == 11 {
        'B'
    } else if n == 12 {
        'C'
    } else if n == 13 {
        'D'
    } else if n == 14 {
        'E'
    } else {
        'F'
    }
}

/// Put the number `v` in hexadecimal digits behind `out`.
fn push_hex(out: &mut Vec<char>, v: u32)
    ensures
        final(out)@ == old(out)@ + hex_text(v as nat),
    decreases v,
{
    if v < 16 {
        out.push(hex_digit_of(v));
        proof {
            assert(out@ =~= old(out)@ + hex_text(v as nat));
        }
    } else {
        push_hex(out, v / 16);
        out.push(hex_digit_of(v % 16));
        proof {
            assert(out@ =~= old(out)@ + hex_text(v as nat));
        }
    }
}

/// Put the character reference for `c` behind `out`.
fn push_char_ref(out: &mut Vec<char>, c: char)
    ensures
        final(out)@ == old(out)@ + char_ref(c),
{
    out.push('&');
    out.push('#');
    out.push('x');
    push_hex(out, c as u32);
    out.push(';');
    proof {
        assert(out@ =~= old(out)@ + char_ref(c));
    }
}

// ----- The text -----

/// Whether what is written for the character behind the one at `p` begins
/// with a punctuation character: the character itself is one, or it is
/// escaped. `end` is where the text ends that is made safe.
pub open spec fn before_punctuation(scope: Scope, whole: Seq<char>, p: int, end: int) -> bool {
    &&& p + 1 < whole.len()
    &&& is_punctuation(whole[p + 1]) || (p + 1 < end && unsafe_at(scope, whole, p + 1))
}

/// What is written for the character at `p`.
pub open spec fn written(
    scope: Scope,
    encode: Option<char>,
    whole: Seq<char>,
    p: int,
    end: int,
) -> Seq<char> {
    let c = whole[p];
    if unsafe_at(scope, whole, p) {
        if is_punctuation(c) && encode != Some(c) {
            seq!['\\', c]
        } else {
            char_ref(c)
        }
    } else if c == '\\' && before_punctuation(scope, whole, p, end) {
        seq!['\\', '\\']
    } else {
        seq![c]
    }
}

/// What is written for the characters from `p` up to `end`.
pub open spec fn safe_from(
    scope: Scope,
    encode: Option<char>,
    whole: Seq<char>,
    p: int,
    end: int,
) -> Seq<char>
    decreases end - p,
{
    if p >= end {
        Seq::empty()
    } else {
        written(scope, encode, whole, p, end) + safe_from(scope, encode, whole, p + 1, end)
    }
}

/// The text `input` made safe, where the constructs of `stack` are entered
/// and `before` and `after` stand around it.
pub open spec fn safe_text(
    stack: Seq<ConstructName>,
    input: Seq<char>,
    before: Seq<char>,
    after: Seq<char>,
    encode: Option<char>,
) -> Seq<char> {
    safe_from(
        scope_of(stack),
        encode,
        before + input + after,
        before.len() as int,
        (before.len() + input.len()) as int,
    )
}

/// Put what is written for the character at `p` behind `out`.
fn write_at(
    out: &mut Vec<char>,
    scope: Scope,
    encode: Option<char>,
    whole: &Vec<char>,
    p: usize,
    end: usize,
)
    requires
        p < end <= whole.len(),
    ensures
        final(out)@ == old(out)@ + written(scope, encode, whole@, p as int, end as int),
{
    let c = whole[p];
    if is_unsafe(scope, whole, p) {
        let encoded = match encode {
            Some(e) => e == c,
            None => false,
        };
        if punctuation(c) && !encoded {
            out.push('\\');
            out.push(c);
            proof {
                assert(out@ =~= old(out)@ + seq!['\\', c]);
            }
        } else {
            push_char_ref(out, c);
        }
    } else if c == '\\' && p + 1 < whole.len() && (punctuation(whole[p + 1]) || (p + 1 < end
        && is_unsafe(scope, whole, p + 1))) {
        out.push('\\');
        out.push('\\');
        proof {
            assert(out@ =~= old(out)@ + seq!['\\', '\\']);
        }
    } else {
        out.push(c);
        proof {
            assert(out@ =~= old(out)@ + seq![c]);
        }
    }
}

impl State {
    /// Make `input` safe to be put between what `config` says stands
    /// around it, in the constructs that the serializer is in.
    pub fn safe(&self, input: &str, config: &SafeConfig) -> (value: String)
        ensures
            value@ == safe_text(self.stack@, input@, config.before@, config.after@, config.encode),
    {
        let scope = scope(&self.stack);
        let mut whole = chars_of(config.before.as_str());
        let start = whole.len();
        let text = chars_of(input);
        extend(&mut whole, &text);
        let end = whole.len();
        let after = chars_of(config.after.as_str());
        extend(&mut whole, &after);
        let mut out: Vec<char> = Vec::new();
        let mut i = start;
        proof {
            assert(out@ + safe_from(scope, config.encode, whole@, i as int, end as int)
                =~= safe_from(scope, config.encode, whole@, start as int, end as int));
        }
        while i < end
            invariant
                start <= i <= end <= whole.len(),
                out@ + safe_from(scope, config.encode, whole@, i as int, end as int) == safe_from(
                    scope,
                    config.encode,
                    whole@,
                    start as int,
                    end as int,
                ),
            decreases end - i,
        {
            let ghost before = out@;
            write_at(&mut out, scope, config.encode, &whole, i, end);
            proof {
                let piece = written(scope, config.encode, whole@, i as int, end as int);
                let rest = safe_from(scope, config.encode, whole@, i + 1, end as int);
                assert((before + piece) + rest =~= before + (piece + rest));
            }
            i = i + 1;
        }
        proof {
            assert(out@ + Seq::<char>::empty() =~= out@);
            assert(whole@ =~= config.before@ + input@ + config.after@);
        }
        string_of(&out)
    }
}

} // verus!
