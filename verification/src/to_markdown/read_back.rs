//! What the construct of definitions reads of what the serializer writes.

use vstd::prelude::*;
use crate::code::{Code, codes_from, codes_of};
use crate::construct::definition::{
    LINK_REFERENCE_SIZE_MAX, definition_fits, destination_fits, escaping, label_data, label_fits,
    lemma_definition_read, line_begun, literal_code, literal_fits, raw_fits, stands, title_fits,
};
use crate::state::{State, StateName};
use crate::to_markdown::construct_name::ConstructName;
use crate::to_markdown::association::association_text;
use crate::to_markdown::handle::definition::{
    blank_between, closing, definition_text, destination_text, has_blank_line,
    has_control_or_whitespace, has_data, is_solid, label_text, legible, title_construct,
    written_label, written_title,
};
use crate::to_markdown::node::Definition;
use crate::to_markdown::util::check_quote::is_quote;
use crate::to_markdown::text::is_punctuation;
use crate::to_markdown::util::decode::{
    guarded, lemma_guarded, lemma_hex_text, lemma_written_first,
};
use crate::to_markdown::util::safe::{
    Scope, before_punctuation, char_ref, hex_text, is_blank, is_eol, safe_from, safe_text,
    scope_of, unsafe_at, written,
};
use crate::tokenizer::TokenizerView;

verus! {

/// Whether the codes from `at` on are the characters of `s`.
pub open spec fn spelled(codes: Seq<Code>, at: int, s: Seq<char>) -> bool {
    &&& 0 <= at
    &&& at + s.len() <= codes.len()
    &&& forall|i: int| 0 <= i < s.len() ==> codes[at + i] == Code::Char(#[trigger] s[i])
}

/// The codes of text without a tab, and without a carriage return in
/// front of a line feed, are the characters of the text.
pub proof fn lemma_codes_spelled(chars: Seq<char>, phase: nat)
    requires
        forall|i: int| 0 <= i < chars.len() ==> #[trigger] chars[i] != '\t',
        forall|i: int|
            0 <= i < chars.len() - 1 ==> !(#[trigger] chars[i] == '\r' && chars[i + 1] == '\n'),
    ensures
        spelled(codes_from(chars, phase), 0, chars),
        codes_from(chars, phase).len() == chars.len(),
    decreases chars.len(),
{
    if chars.len() > 0 {
        let rest = chars.skip(1);
        let next = if chars[0] == '\r' || chars[0] == '\n' {
            0
        } else {
            (phase + 1) % 4
        };
        assert forall|i: int| 0 <= i < rest.len() implies #[trigger] rest[i] != '\t' by {
            assert(rest[i] == chars[i + 1]);
        }
        assert forall|i: int| 0 <= i < rest.len() - 1 implies !(#[trigger] rest[i] == '\r'
            && rest[i + 1] == '\n') by {
            assert(rest[i] == chars[i + 1] && rest[i + 1] == chars[i + 2]);
        }
        lemma_codes_spelled(rest, next as nat);
        let codes = codes_from(chars, phase);
        let tail = codes_from(rest, next as nat);
        assert(chars[0] != '\t');
        if chars.len() > 1 {
            assert(!(chars[0] == '\r' && chars[1] == '\n'));
        }
        assert(codes == seq![Code::Char(chars[0])] + tail);
        assert forall|i: int| 0 <= i < chars.len() implies codes[0 + i] == Code::Char(
            #[trigger] chars[i],
        ) by {
            if i > 0 {
                assert(codes[i] == tail[0 + (i - 1)]);
                assert(rest[i - 1] == chars[i]);
            }
        }
    }
}

/// What is written for text without whitespace and control characters, in
/// a destination without angle brackets, can stand in such a destination:
/// from any place in the text on, behind codes that can.
proof fn lemma_written_raw(
    scope: Scope,
    whole: Seq<char>,
    p: int,
    end: int,
    codes: Seq<Code>,
    start: int,
    at: int,
)
    requires
        scope.destination_raw,
        0 <= p <= end <= whole.len(),
        forall|k: int| p <= k < end ==> is_solid(#[trigger] whole[k]),
        0 <= start <= at,
        spelled(codes, at, safe_from(scope, None, whole, p, end)),
        raw_fits(codes, start, at),
        escaping(codes, start, at) && p < end ==> !is_punctuation(whole[p]) && !unsafe_at(
            scope,
            whole,
            p,
        ),
    ensures
        raw_fits(codes, start, at + safe_from(scope, None, whole, p, end).len()),
    decreases end - p,
{
    if p < end {
        let c = whole[p];
        let first = written(scope, None, whole, p, end);
        let rest = safe_from(scope, None, whole, p + 1, end);
        let s = safe_from(scope, None, whole, p, end);
        let n = first.len() as int;
        assert(s == first + rest);
        assert(is_solid(c));
        assert forall|i: int| 0 <= i < rest.len() implies codes[at + n + i] == Code::Char(
            #[trigger] rest[i],
        ) by {
            assert(s[n + i] == rest[i]);
        }
        assert(codes[at] == Code::Char(s[0]));
        assert(s[0] == first[0]);
        if n == 2 {
            assert(codes[at + 1] == Code::Char(s[1]));
            assert(s[1] == first[1]);
            assert(first[0] == '\\');
            assert(is_punctuation(first[1]));
            assert(!escaping(codes, start, at));
            assert(raw_fits(codes, start, at + 1));
            assert(escaping(codes, start, at + 1));
            assert(raw_fits(codes, start, at + 2));
            assert(!escaping(codes, start, at + 2));
        } else {
            assert(first == seq![c]);
            assert(c != '(' && c != ')');
            assert(raw_fits(codes, start, at + 1));
            if escaping(codes, start, at + 1) && p + 1 < end {
                assert(c == '\\');
                assert(!before_punctuation(scope, whole, p, end));
            }
        }
        lemma_written_raw(scope, whole, p + 1, end, codes, start, at + n);
    }
}

/// Codes that are no backslash, no angle bracket and no line ending can
/// stand in a destination between angle brackets, behind codes that can and
/// end with no backslash that escapes.
proof fn lemma_literal_run(codes: Seq<Code>, start: int, a: int, b: int)
    requires
        0 <= start <= a <= b <= codes.len(),
        literal_fits(codes, start, a),
        !escaping(codes, start, a),
        forall|k: int|
            a <= k < b ==> !(#[trigger] codes[k]).is_line_end() && codes[k] != Code::Char('\\')
                && codes[k] != Code::Char('<') && codes[k] != Code::Char('>'),
    ensures
        literal_fits(codes, start, b),
        !escaping(codes, start, b),
    decreases b - a,
{
    if a < b {
        lemma_literal_run(codes, start, a, b - 1);
        assert(literal_code(codes[b - 1], false));
    }
}

/// What is written in a destination between angle brackets can stand in
/// such a destination: from any place in the text on, behind codes that
/// can. No backslash that escapes stands at its end where a punctuation
/// character stands behind the text.
proof fn lemma_written_literal(
    scope: Scope,
    whole: Seq<char>,
    p: int,
    end: int,
    codes: Seq<Code>,
    start: int,
    at: int,
)
    requires
        scope.destination_literal,
        0 <= p <= end <= whole.len(),
        0 <= start <= at,
        spelled(codes, at, safe_from(scope, None, whole, p, end)),
        literal_fits(codes, start, at),
        escaping(codes, start, at) && p < whole.len() ==> !is_punctuation(whole[p]) && (p
            < end ==> !unsafe_at(scope, whole, p)),
    ensures
        literal_fits(codes, start, at + safe_from(scope, None, whole, p, end).len()),
        escaping(codes, start, at + safe_from(scope, None, whole, p, end).len()) && end
            < whole.len() ==> !is_punctuation(whole[end]),
    decreases end - p,
{
    if p < end {
        let c = whole[p];
        let first = written(scope, None, whole, p, end);
        let rest = safe_from(scope, None, whole, p + 1, end);
        let s = safe_from(scope, None, whole, p, end);
        let n = first.len() as int;
        assert(s == first + rest);
        assert forall|i: int| 0 <= i < rest.len() implies codes[at + n + i] == Code::Char(
            #[trigger] rest[i],
        ) by {
            assert(s[n + i] == rest[i]);
        }
        assert forall|i: int| 0 <= i < n implies codes[at + i] == Code::Char(
            #[trigger] first[i],
        ) by {
            assert(s[i] == first[i]);
        }
        if unsafe_at(scope, whole, p) {
            assert(!escaping(codes, start, at));
            if is_punctuation(c) {
                assert(first == seq!['\\', c]);
                assert(codes[at] == Code::Char(first[0]));
                assert(codes[at + 1] == Code::Char(first[1]));
                assert(literal_fits(codes, start, at + 1));
                assert(escaping(codes, start, at + 1));
                assert(literal_fits(codes, start, at + 2));
                assert(!escaping(codes, start, at + 2));
            } else {
                let digits = hex_text(c as nat);
                lemma_hex_text(c as nat);
                assert(first == char_ref(c));
                assert forall|k: int| at <= k < at + n implies !(#[trigger] codes[k]).is_line_end()
                    && codes[k] != Code::Char('\\') && codes[k] != Code::Char('<') && codes[k]
                    != Code::Char('>') by {
                    let i = k - at;
                    assert(codes[at + i] == Code::Char(first[i]));
                    if 3 <= i < 3 + digits.len() {
                        assert(first[i] == digits[i - 3]);
                    }
                }
                lemma_literal_run(codes, start, at, at + n);
            }
        } else if c == '\\' && before_punctuation(scope, whole, p, end) {
            assert(first == seq!['\\', '\\']);
            assert(!escaping(codes, start, at));
            assert(codes[at] == Code::Char(first[0]));
            assert(codes[at + 1] == Code::Char(first[1]));
            assert(literal_fits(codes, start, at + 1));
            assert(escaping(codes, start, at + 1));
            assert(literal_fits(codes, start, at + 2));
            assert(!escaping(codes, start, at + 2));
        } else {
            assert(first == seq![c]);
            assert(codes[at] == Code::Char(first[0]));
            assert(c != '<' && c != '>' && c != '\r' && c != '\n');
            assert(literal_fits(codes, start, at + 1));
            if escaping(codes, start, at + 1) {
                assert(c == '\\');
                assert(!before_punctuation(scope, whole, p, end));
            }
        }
        lemma_written_literal(scope, whole, p + 1, end, codes, start, at + n);
    }
}

/// Whether no carriage return stands in front of a line feed in `s`.
pub open spec fn unpaired(s: Seq<char>) -> bool {
    forall|i: int| 0 <= i < s.len() - 1 ==> !(#[trigger] s[i] == '\r' && s[i + 1] == '\n')
}

/// Whether every bracket among the codes from `start` up to `k` stands
/// behind a backslash that escapes.
pub open spec fn brackets_escaped(codes: Seq<Code>, start: int, k: int) -> bool
    decreases k - start,
{
    if k <= start {
        true
    } else {
        &&& brackets_escaped(codes, start, k - 1)
        &&& codes[k - 1] == Code::Char('[') || codes[k - 1] == Code::Char(']') ==> escaping(
            codes,
            start,
            k - 1,
        )
    }
}

/// What is written in a label holds no bracket but behind a backslash
/// that escapes: from any place in the text on, behind codes that hold none.
/// No backslash that escapes stands at its end where a punctuation character
/// stands behind the text.
proof fn lemma_written_label(
    scope: Scope,
    whole: Seq<char>,
    p: int,
    end: int,
    codes: Seq<Code>,
    start: int,
    at: int,
)
    requires
        scope.label_or_reference,
        0 <= p <= end <= whole.len(),
        0 <= start <= at,
        spelled(codes, at, safe_from(scope, None, whole, p, end)),
        brackets_escaped(codes, start, at),
        escaping(codes, start, at) && p < whole.len() ==> !is_punctuation(whole[p]) && (p < end
            ==> !unsafe_at(scope, whole, p)),
    ensures
        brackets_escaped(codes, start, at + safe_from(scope, None, whole, p, end).len()),
        escaping(codes, start, at + safe_from(scope, None, whole, p, end).len()) && end
            < whole.len() ==> !is_punctuation(whole[end]),
    decreases end - p,
{
    if p < end {
        let c = whole[p];
        let first = written(scope, None, whole, p, end);
        let rest = safe_from(scope, None, whole, p + 1, end);
        let s = safe_from(scope, None, whole, p, end);
        let n = first.len() as int;
        assert(s == first + rest);
        assert forall|i: int| 0 <= i < rest.len() implies codes[at + n + i] == Code::Char(
            #[trigger] rest[i],
        ) by {
            assert(s[n + i] == rest[i]);
        }
        assert forall|i: int| 0 <= i < n implies codes[at + i] == Code::Char(
            #[trigger] first[i],
        ) by {
            assert(s[i] == first[i]);
        }
        if unsafe_at(scope, whole, p) {
            assert(!escaping(codes, start, at));
            if is_punctuation(c) {
                assert(first == seq!['\\', c]);
                assert(codes[at] == Code::Char(first[0]));
                assert(codes[at + 1] == Code::Char(first[1]));
                assert(brackets_escaped(codes, start, at + 1));
                assert(escaping(codes, start, at + 1));
                assert(brackets_escaped(codes, start, at + 2));
                assert(!escaping(codes, start, at + 2));
            } else {
                let digits = hex_text(c as nat);
                lemma_hex_text(c as nat);
                assert(first == char_ref(c));
                assert forall|k: int| at <= k < at + n implies #[trigger] codes[k] != Code::Char(
                    '\\',
                ) && codes[k] != Code::Char('[') && codes[k] != Code::Char(']') by {
                    let i = k - at;
                    assert(codes[at + i] == Code::Char(first[i]));
                    if 3 <= i < 3 + digits.len() {
                        assert(first[i] == digits[i - 3]);
                    }
                }
                lemma_plain_run(codes, start, at, at + n);
            }
        } else if c == '\\' && before_punctuation(scope, whole, p, end) {
            assert(first == seq!['\\', '\\']);
            assert(!escaping(codes, start, at));
            assert(codes[at] == Code::Char(first[0]));
            assert(codes[at + 1] == Code::Char(first[1]));
            assert(brackets_escaped(codes, start, at + 1));
            assert(escaping(codes, start, at + 1));
            assert(brackets_escaped(codes, start, at + 2));
            assert(!escaping(codes, start, at + 2));
        } else {
            assert(first == seq![c]);
            assert(codes[at] == Code::Char(first[0]));
            assert(c != '[' && c != ']');
            assert(brackets_escaped(codes, start, at + 1));
            if escaping(codes, start, at + 1) {
                assert(c == '\\');
                assert(!before_punctuation(scope, whole, p, end));
            }
        }
        lemma_written_label(scope, whole, p + 1, end, codes, start, at + n);
    }
}

/// Codes that are no backslash and no bracket leave every bracket behind
/// a backslash, behind codes that do and end with no backslash that escapes.
proof fn lemma_plain_run(codes: Seq<Code>, start: int, a: int, b: int)
    requires
        0 <= start <= a <= b <= codes.len(),
        brackets_escaped(codes, start, a),
        !escaping(codes, start, a),
        forall|k: int|
            a <= k < b ==> #[trigger] codes[k] != Code::Char('\\') && codes[k] != Code::Char('[')
                && codes[k] != Code::Char(']'),
    ensures
        brackets_escaped(codes, start, b),
        !escaping(codes, start, b),
    decreases b - a,
{
    if a < b {
        lemma_plain_run(codes, start, a, b - 1);
    }
}

/// Where a line begins, a line ending stands in front, with nothing but
/// spaces and tabs behind it.
proof fn lemma_line_begun(codes: Seq<Code>, start: int, k: int) -> (i: int)
    requires
        0 <= start <= k <= codes.len(),
        line_begun(codes, start, k),
    ensures
        start <= i < k,
        codes[i].is_eol(),
        forall|j: int| i < j < k ==> (#[trigger] codes[j]).is_space_or_tab(),
    decreases k - start,
{
    if codes[k - 1].is_eol() {
        k - 1
    } else {
        lemma_line_begun(codes, start, k - 1)
    }
}

/// The codes of a part that holds no blank line, and in which every
/// bracket stands behind a backslash, can stand in a label, where they are
/// no more than a label can have.
proof fn lemma_label_fits(codes: Seq<Code>, start: int, s: Seq<char>, k: int)
    requires
        0 <= start,
        spelled(codes, start, s),
        start <= k <= start + s.len(),
        s.len() <= LINK_REFERENCE_SIZE_MAX,
        !has_blank_line(s),
        unpaired(s),
        brackets_escaped(codes, start, k),
    ensures
        label_fits(codes, start, k),
    decreases k - start,
{
    if k > start {
        lemma_label_fits(codes, start, s, k - 1);
        let code = codes[k - 1];
        assert(codes[start + (k - 1 - start)] == Code::Char(s[k - 1 - start]));
        if code.is_eol() && line_begun(codes, start, k - 1) {
            let i = lemma_line_begun(codes, start, k - 1);
            let a = i - start;
            let b = k - 1 - start;
            assert(codes[start + a] == Code::Char(s[a]));
            assert forall|j: int| a < j < b implies is_blank(#[trigger] s[j]) by {
                assert(codes[start + j] == Code::Char(s[j]));
            }
            assert(blank_between(s, a, b));
        }
    }
}

/// A part that holds more than whitespace is seen to hold it, where no
/// backslash that escapes stands at what is seen.
proof fn lemma_label_data(codes: Seq<Code>, start: int, k: int, j: int)
    requires
        0 <= start <= j < k <= codes.len(),
        !codes[j].is_space_or_tab(),
        !codes[j].is_eol(),
        !(j == k - 1 && escaping(codes, start, k)),
    ensures
        label_data(codes, start, k),
    decreases k - start,
{
    if escaping(codes, start, k) {
        lemma_label_data(codes, start, k - 1, j);
    } else if !escaping(codes, start, k - 1) && j < k - 1 {
        lemma_label_data(codes, start, k - 1, j);
    }
}

/// Whether `code` ends a title that `closer` ends, or opens a
/// parenthesis in a title between parentheses.
pub open spec fn ends_title(code: Code, closer: char) -> bool {
    code == Code::Char(closer) || (code == Code::Char('(') && closer == ')')
}

/// Whether what ends the title, among the codes from `start` up to `k`,
/// stands behind a backslash that escapes.
pub open spec fn closer_escaped(codes: Seq<Code>, start: int, k: int, closer: char) -> bool
    decreases k - start,
{
    if k <= start {
        true
    } else {
        &&& closer_escaped(codes, start, k - 1, closer)
        &&& ends_title(codes[k - 1], closer) ==> escaping(codes, start, k - 1)
    }
}

/// Codes that are no backslash and do not end the title leave what ends
/// it behind a backslash, behind codes that do and end with no backslash that
/// escapes.
proof fn lemma_title_run(codes: Seq<Code>, start: int, a: int, b: int, closer: char)
    requires
        0 <= start <= a <= b <= codes.len(),
        closer_escaped(codes, start, a, closer),
        !escaping(codes, start, a),
        forall|k: int|
            a <= k < b ==> #[trigger] codes[k] != Code::Char('\\') && !ends_title(
                codes[k],
                closer,
            ),
    ensures
        closer_escaped(codes, start, b, closer),
        !escaping(codes, start, b),
    decreases b - a,
{
    if a < b {
        lemma_title_run(codes, start, a, b - 1, closer);
    }
}

/// What is written in a title holds what ends the title only behind a
/// backslash that escapes: from any place in the text on, behind codes that
/// do. No backslash that escapes stands at its end where a punctuation
/// character stands behind the text.
proof fn lemma_written_title(
    scope: Scope,
    whole: Seq<char>,
    p: int,
    end: int,
    codes: Seq<Code>,
    start: int,
    at: int,
    closer: char,
)
    requires
        closer == '"' || closer == '\'' || closer == ')',
        guarded(scope, closer),
        closer == ')' ==> guarded(scope, '('),
        0 <= p <= end <= whole.len(),
        0 <= start <= at,
        spelled(codes, at, safe_from(scope, None, whole, p, end)),
        closer_escaped(codes, start, at, closer),
        escaping(codes, start, at) && p < whole.len() ==> !is_punctuation(whole[p]) && (p < end
            ==> !unsafe_at(scope, whole, p)),
    ensures
        closer_escaped(codes, start, at + safe_from(scope, None, whole, p, end).len(), closer),
        escaping(codes, start, at + safe_from(scope, None, whole, p, end).len()) && end
            < whole.len() ==> !is_punctuation(whole[end]),
    decreases end - p,
{
    if p < end {
        let c = whole[p];
        let first = written(scope, None, whole, p, end);
        let rest = safe_from(scope, None, whole, p + 1, end);
        let s = safe_from(scope, None, whole, p, end);
        let n = first.len() as int;
        assert(s == first + rest);
        assert forall|i: int| 0 <= i < rest.len() implies codes[at + n + i] == Code::Char(
            #[trigger] rest[i],
        ) by {
            assert(s[n + i] == rest[i]);
        }
        assert forall|i: int| 0 <= i < n implies codes[at + i] == Code::Char(
            #[trigger] first[i],
        ) by {
            assert(s[i] == first[i]);
        }
        if unsafe_at(scope, whole, p) {
            assert(!escaping(codes, start, at));
            if is_punctuation(c) {
                assert(first == seq!['\\', c]);
                assert(codes[at] == Code::Char(first[0]));
                assert(codes[at + 1] == Code::Char(first[1]));
                assert(closer_escaped(codes, start, at + 1, closer));
                assert(escaping(codes, start, at + 1));
                assert(closer_escaped(codes, start, at + 2, closer));
                assert(!escaping(codes, start, at + 2));
            } else {
                let digits = hex_text(c as nat);
                lemma_hex_text(c as nat);
                assert(first == char_ref(c));
                assert forall|k: int| at <= k < at + n implies #[trigger] codes[k] != Code::Char(
                    '\\',
                ) && !ends_title(codes[k], closer) by {
                    let i = k - at;
                    assert(codes[at + i] == Code::Char(first[i]));
                    if 3 <= i < 3 + digits.len() {
                        assert(first[i] == digits[i - 3]);
                    }
                }
                lemma_title_run(codes, start, at, at + n, closer);
            }
        } else if c == '\\' && before_punctuation(scope, whole, p, end) {
            assert(first == seq!['\\', '\\']);
            assert(!escaping(codes, start, at));
            assert(codes[at] == Code::Char(first[0]));
            assert(codes[at + 1] == Code::Char(first[1]));
            assert(closer_escaped(codes, start, at + 1, closer));
            assert(escaping(codes, start, at + 1));
            assert(closer_escaped(codes, start, at + 2, closer));
            assert(!escaping(codes, start, at + 2));
        } else {
            assert(first == seq![c]);
            assert(codes[at] == Code::Char(first[0]));
            if c == closer {
                lemma_guarded(scope, whole, p, closer);
            }
            if c == '(' && closer == ')' {
                lemma_guarded(scope, whole, p, '(');
            }
            assert(!ends_title(codes[at], closer));
            assert(closer_escaped(codes, start, at + 1, closer));
            if escaping(codes, start, at + 1) {
                assert(c == '\\');
                assert(!before_punctuation(scope, whole, p, end));
            }
        }
        lemma_written_title(scope, whole, p + 1, end, codes, start, at + n, closer);
    }
}

/// The codes of a part that holds no blank line, and in which what ends
/// the title stands behind a backslash, can stand in a title.
proof fn lemma_title_fits(codes: Seq<Code>, start: int, s: Seq<char>, k: int, closer: char)
    requires
        0 <= start,
        spelled(codes, start, s),
        start <= k <= start + s.len(),
        !has_blank_line(s),
        unpaired(s),
        closer_escaped(codes, start, k, closer),
    ensures
        title_fits(codes, start, k, closer),
    decreases k - start,
{
    if k > start {
        lemma_title_fits(codes, start, s, k - 1, closer);
        let code = codes[k - 1];
        assert(codes[start + (k - 1 - start)] == Code::Char(s[k - 1 - start]));
        if code.is_eol() && line_begun(codes, start, k - 1) {
            let i = lemma_line_begun(codes, start, k - 1);
            let a = i - start;
            let b = k - 1 - start;
            assert(codes[start + a] == Code::Char(s[a]));
            assert forall|j: int| a < j < b implies is_blank(#[trigger] s[j]) by {
                assert(codes[start + j] == Code::Char(s[j]));
            }
            assert(blank_between(s, a, b));
        }
    }
}

// ----- The whole definition -----

/// Whether the destination of `node` is written between angle brackets.
pub open spec fn is_literal(node: &Definition) -> bool {
    node.url@.len() == 0 || has_control_or_whitespace(node.url@)
}

/// The destination of `node` as it is written, without the angle brackets
/// around it where it has them.
pub open spec fn written_url(stack: Seq<ConstructName>, node: &Definition) -> Seq<char> {
    if is_literal(node) {
        safe_text(
            stack.push(ConstructName::Definition).push(ConstructName::DestinationLiteral),
            node.url@,
            label_text(stack, node) + seq!['<'],
            seq!['>'],
            None,
        )
    } else {
        safe_text(
            stack.push(ConstructName::Definition).push(ConstructName::DestinationRaw),
            node.url@,
            label_text(stack, node),
            if node.title is Some {
                seq![' ']
            } else {
                seq![')']
            },
            None,
        )
    }
}

/// The destination of `node` as it is written.
pub open spec fn written_destination(stack: Seq<ConstructName>, node: &Definition) -> Seq<char> {
    if is_literal(node) {
        seq!['<'] + (written_url(stack, node) + seq!['>'])
    } else {
        written_url(stack, node)
    }
}

/// What is written behind the destination of `node`: nothing, or a space
/// and the title between `quote` and what closes it.
pub open spec fn written_end(
    stack: Seq<ConstructName>,
    node: &Definition,
    quote: char,
) -> Seq<char> {
    match node.title {
        Some(title) => seq![' ', quote] + (written_title(stack, node, title@, quote)
            + seq![closing(quote)]),
        None => Seq::empty(),
    }
}

/// A definition is written as a bracket, its label, a bracket, a colon
/// and a space, its destination, and what stands behind the destination.
proof fn lemma_text(stack: Seq<ConstructName>, node: &Definition, quote: char)
    ensures
        definition_text(stack, node, quote) == seq!['['] + (written_label(stack, node) + (seq![
            ']',
            ':',
            ' ',
        ] + (written_destination(stack, node) + written_end(stack, node, quote)))),
{
    reveal_strlit("[");
    reveal_strlit("]");
    reveal_strlit("]: ");
    reveal_strlit("<");
    reveal_strlit(">");
    reveal_strlit(" ");
    reveal_strlit(")");
    let label = label_text(stack, node);
    let destination = destination_text(stack, node);
    assert("["@ =~= seq!['[']);
    assert("]"@ =~= seq![']']);
    assert("<"@ =~= seq!['<']);
    assert(">"@ =~= seq!['>']);
    assert(" "@ =~= seq![' ']);
    assert(")"@ =~= seq![')']);
    assert(label + "<"@ =~= label + seq!['<']);
    assert(label =~= seq!['['] + (written_label(stack, node) + seq![']', ':', ' ']));
    assert(destination =~= label + written_destination(stack, node));
    assert(definition_text(stack, node, quote) =~= destination + written_end(stack, node, quote));
    assert(definition_text(stack, node, quote) =~= seq!['['] + (written_label(stack, node) + (
        seq![']', ':', ' '] + (written_destination(stack, node) + written_end(
            stack,
            node,
            quote,
        )))));
}

/// Codes that are the characters of two texts, one behind the other, are
/// the characters of each.
proof fn lemma_spelled_split(codes: Seq<Code>, at: int, a: Seq<char>, b: Seq<char>)
    requires
        spelled(codes, at, a + b),
    ensures
        spelled(codes, at, a),
        spelled(codes, at + a.len(), b),
{
    let s = a + b;
    assert forall|i: int| 0 <= i < a.len() implies codes[at + i] == Code::Char(
        #[trigger] a[i],
    ) by {
        assert(s[i] == a[i]);
    }
    assert forall|i: int| 0 <= i < b.len() implies codes[at + a.len() + i] == Code::Char(
        #[trigger] b[i],
    ) by {
        assert(s[a.len() + i] == b[i]);
    }
}

/// Whether `node` is written with a label and a title that the construct
/// of definitions reads: the label as it is written holds more than
/// whitespace, no blank line, no carriage return in front of a line feed,
/// and no more characters than a label can have codes; the title as it is
/// written holds no blank line and no carriage return in front of a line
/// feed.
pub open spec fn plainly_written(
    stack: Seq<ConstructName>,
    node: &Definition,
    quote: char,
) -> bool {
    let label = written_label(stack, node);
    &&& has_data(label)
    &&& !has_blank_line(label)
    &&& unpaired(label)
    &&& label.len() <= LINK_REFERENCE_SIZE_MAX
    &&& match node.title {
        Some(title) => !has_blank_line(written_title(stack, node, title@, quote)) && unpaired(
            written_title(stack, node, title@, quote),
        ),
        None => true,
    }
}

/// The label of a definition that is written can stand in a label.
proof fn lemma_label_codes(
    codes: Seq<Code>,
    stack: Seq<ConstructName>,
    node: &Definition,
    quote: char,
)
    requires
        plainly_written(stack, node, quote),
        spelled(codes, 1, written_label(stack, node)),
    ensures
        label_fits(codes, 1, written_label(stack, node).len() as int + 1),
        label_data(codes, 1, written_label(stack, node).len() as int + 1),
        !escaping(codes, 1, written_label(stack, node).len() as int + 1),
{
    reveal_strlit("[");
    reveal_strlit("]");
    let inside = stack.push(ConstructName::Definition).push(ConstructName::Label);
    let scope = scope_of(inside);
    let label = association_text(node);
    let whole = "["@ + label + "]"@;
    let from = "["@.len() as int;
    let end = from + label.len();
    let safe = written_label(stack, node);
    assert(inside.last() == ConstructName::Label);
    assert(scope.label_or_reference);
    assert(whole[end] == ']');
    lemma_written_label(scope, whole, from, end, codes, 1, 1);
    lemma_label_fits(codes, 1, safe, safe.len() as int + 1);
    let q = choose|q: int| 0 <= q < safe.len() && !is_blank(#[trigger] safe[q]) && !is_eol(safe[q]);
    assert(codes[1 + q] == Code::Char(safe[q]));
    lemma_label_data(codes, 1, safe.len() as int + 1, 1 + q);
}

/// The destination of a definition that is written can stand as a
/// destination.
proof fn lemma_destination_codes(
    codes: Seq<Code>,
    stack: Seq<ConstructName>,
    node: &Definition,
    d: int,
)
    requires
        0 <= d,
        spelled(codes, d, written_destination(stack, node)),
    ensures
        destination_fits(codes, d, d + written_destination(stack, node).len()),
{
    let url = node.url@;
    let safe = written_url(stack, node);
    let label = label_text(stack, node);
    if is_literal(node) {
        let inside = stack.push(ConstructName::Definition).push(
            ConstructName::DestinationLiteral,
        );
        let scope = scope_of(inside);
        let before = label + seq!['<'];
        let whole = before + url + seq!['>'];
        let from = before.len() as int;
        let end = from + url.len();
        lemma_spelled_split(codes, d, seq!['<'], safe + seq!['>']);
        lemma_spelled_split(codes, d + 1, safe, seq!['>']);
        assert(codes[d + 0] == Code::Char(seq!['<'][0]));
        assert(codes[d + 1 + safe.len() + 0] == Code::Char(seq!['>'][0]));
        assert(inside.last() == ConstructName::DestinationLiteral);
        assert(scope.destination_literal);
        assert(whole[end] == '>');
        lemma_written_literal(scope, whole, from, end, codes, d + 1, d + 1);
    } else {
        let inside = stack.push(ConstructName::Definition).push(ConstructName::DestinationRaw);
        let scope = scope_of(inside);
        let after = if node.title is Some {
            seq![' ']
        } else {
            seq![')']
        };
        let whole = label + url + after;
        let from = label.len() as int;
        let end = from + url.len();
        assert(inside.last() == ConstructName::DestinationRaw);
        assert(scope.destination_raw);
        assert forall|k: int| from <= k < end implies is_solid(#[trigger] whole[k]) by {
            assert(whole[k] == url[k - from]);
        }
        lemma_written_first(scope, None, whole, from, end);
        if whole[from] == '<' {
            lemma_guarded(scope, whole, from, '<');
        }
        assert(safe[0] != '<');
        assert(codes[d + 0] == Code::Char(safe[0]));
        lemma_written_raw(scope, whole, from, end, codes, d, d);
    }
}

/// The title of a definition that is written can stand as a title.
proof fn lemma_title_codes(
    codes: Seq<Code>,
    stack: Seq<ConstructName>,
    node: &Definition,
    title: Seq<char>,
    quote: char,
    at: int,
)
    requires
        is_quote(quote),
        0 <= at,
        !has_blank_line(written_title(stack, node, title, quote)),
        unpaired(written_title(stack, node, title, quote)),
        spelled(codes, at, written_title(stack, node, title, quote)),
    ensures
        title_fits(
            codes,
            at,
            at + written_title(stack, node, title, quote).len(),
            closing(quote),
        ),
        !escaping(codes, at, at + written_title(stack, node, title, quote).len()),
{
    let inside = stack.push(ConstructName::Definition).push(title_construct(quote));
    let scope = scope_of(inside);
    let closer = closing(quote);
    let whole = node.url@ + title + seq![closer];
    let from = node.url@.len() as int;
    let end = from + title.len();
    let safe = written_title(stack, node, title, quote);
    assert(inside.last() == title_construct(quote));
    assert(guarded(scope, closer));
    assert(whole[end] == closer);
    lemma_written_title(scope, whole, from, end, codes, at, at, closer);
    lemma_title_fits(codes, at, safe, at + safe.len(), closer);
}

/// The construct of definitions reads a definition that is written as a
/// definition: begun at the first code of what is written, the machine comes
/// to a match at the end of the input, with the attempts and the open spans
/// that it began with. This holds of a definition that is plainly written,
/// where the codes are the characters of what is written.
pub proof fn lemma_definition_read_back(
    first: TokenizerView,
    codes: Seq<Code>,
    stack: Seq<ConstructName>,
    node: &Definition,
    quote: char,
)
    requires
        is_quote(quote),
        plainly_written(stack, node, quote),
        codes.len() == definition_text(stack, node, quote).len(),
        spelled(codes, 0, definition_text(stack, node, quote)),
        first.start_index + codes.len() < usize::MAX,
        first.stack.len() < usize::MAX,
        first.index == first.start_index,
        first.current == Code::Char('['),
        !first.consumed,
    ensures
        exists|t: TokenizerView|
            #[trigger] first.reaches(
                State::Next(StateName::DefinitionStart),
                codes,
                t,
                State::Success,
            ) && stands(first, t, first.stack, codes.len() as int),
{
    let label = written_label(stack, node);
    let destination = written_destination(stack, node);
    let behind = written_end(stack, node, quote);
    let marks = seq![']', ':', ' '];
    let n = label.len() as int;
    let d = n + 4;
    let e = d + destination.len();
    lemma_text(stack, node, quote);
    lemma_spelled_split(codes, 0, seq!['['], label + (marks + (destination + behind)));
    lemma_spelled_split(codes, 1, label, marks + (destination + behind));
    lemma_spelled_split(codes, 1 + n, marks, destination + behind);
    lemma_spelled_split(codes, d, destination, behind);
    assert(codes[0int + 0] == Code::Char(seq!['['][0]));
    assert(codes[1 + n + 0] == Code::Char(marks[0]));
    assert(codes[1 + n + 1] == Code::Char(marks[1]));
    assert(codes[1 + n + 2] == Code::Char(marks[2]));
    lemma_label_codes(codes, stack, node, quote);
    lemma_destination_codes(codes, stack, node, d);
    match node.title {
        Some(title) => {
            let written = written_title(stack, node, title@, quote);
            let closer = closing(quote);
            lemma_spelled_split(codes, e, seq![' ', quote], written + seq![closer]);
            lemma_spelled_split(codes, e + 2, written, seq![closer]);
            assert(codes[e + 0] == Code::Char(seq![' ', quote][0]));
            assert(codes[e + 1] == Code::Char(seq![' ', quote][1]));
            assert(codes[e + 2 + written.len() + 0] == Code::Char(seq![closer][0]));
            lemma_title_codes(codes, stack, node, title@, quote, e + 2);
            let last = e + 2 + written.len();
            assert(definition_fits(codes, 1, 1 + n, e, Some((last, closer))));
            lemma_definition_read(first, codes, 1, 1 + n, e, Some((last, closer)));
        },
        None => {
            assert(behind.len() == 0);
            assert(definition_fits(codes, 1, 1 + n, e, None));
            lemma_definition_read(first, codes, 1, 1 + n, e, None);
        },
    }
}

/// Whether `s` holds no tab.
pub open spec fn tabless(s: Seq<char>) -> bool {
    forall|i: int| 0 <= i < s.len() ==> #[trigger] s[i] != '\t'
}

/// A part of text without a tab, and without a carriage return in front
/// of a line feed, is such text.
proof fn lemma_part_plain(text: Seq<char>, at: int, part: Seq<char>)
    requires
        tabless(text),
        unpaired(text),
        0 <= at,
        at + part.len() <= text.len(),
        text.subrange(at, at + part.len()) == part,
    ensures
        tabless(part),
        unpaired(part),
{
    assert forall|i: int| 0 <= i < part.len() implies #[trigger] part[i] != '\t' by {
        assert(part[i] == text[at + i]);
    }
    assert forall|i: int| 0 <= i < part.len() - 1 implies !(#[trigger] part[i] == '\r' && part[i
        + 1] == '\n') by {
        assert(part[i] == text[at + i]);
        assert(part[i + 1] == text[at + i + 1]);
    }
}

/// The construct of definitions reads a definition that is written as a
/// definition: over the codes of what is written, begun at the first of
/// them, the machine comes to a match at the end of the input, with the
/// attempts and the open spans that it began with. This holds of a
/// definition whose label and title are written as a label and a title can
/// be, where what is written holds no tab and no carriage return in front of
/// a line feed.
pub proof fn lemma_definition_is_read(
    first: TokenizerView,
    stack: Seq<ConstructName>,
    node: &Definition,
    quote: char,
)
    requires
        is_quote(quote),
        legible(stack, node, quote),
        tabless(definition_text(stack, node, quote)),
        unpaired(definition_text(stack, node, quote)),
        first.start_index + definition_text(stack, node, quote).len() < usize::MAX,
        first.stack.len() < usize::MAX,
        first.index == first.start_index,
        first.current == Code::Char('['),
        !first.consumed,
    ensures
        exists|t: TokenizerView|
            #[trigger] first.reaches(
                State::Next(StateName::DefinitionStart),
                codes_of(definition_text(stack, node, quote)),
                t,
                State::Success,
            ) && stands(
                first,
                t,
                first.stack,
                codes_of(definition_text(stack, node, quote)).len() as int,
            ),
{
    let text = definition_text(stack, node, quote);
    let codes = codes_of(text);
    let label = written_label(stack, node);
    let destination = written_destination(stack, node);
    let behind = written_end(stack, node, quote);
    let marks = seq![']', ':', ' '];
    lemma_codes_spelled(text, 0);
    lemma_text(stack, node, quote);
    assert(text.subrange(1, label.len() as int + 1) =~= label);
    lemma_part_plain(text, 1, label);
    lemma_codes_spelled(label, 1);
    match node.title {
        Some(title) => {
            let written = written_title(stack, node, title@, quote);
            let at = label.len() as int + destination.len() as int + 6;
            assert(behind == seq![' ', quote] + (written + seq![closing(quote)]));
            assert(text.subrange(at, at + written.len() as int) =~= written);
            lemma_part_plain(text, at, written);
        },
        None => {},
    }
    lemma_definition_read_back(first, codes, stack, node, quote);
}

} // verus!
