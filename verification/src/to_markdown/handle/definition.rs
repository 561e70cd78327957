//! Writing a definition.

use vstd::prelude::*;
use vstd::string::StringExecFns;
use crate::code::{chars_of, codes_from};
use crate::construct::definition::LINK_REFERENCE_SIZE_MAX;
use crate::to_markdown::association::association_text;
use crate::to_markdown::construct_name::ConstructName;
use crate::to_markdown::message::Message;
use crate::to_markdown::node::Definition;
use crate::to_markdown::state::State;
use crate::to_markdown::text::{
    is_control, is_unicode_control, is_unicode_whitespace, is_whitespace, push_char,
};
use crate::to_markdown::util::check_quote::{check_quote, is_quote, quote_reason};
use crate::to_markdown::util::decode::{
    bare, decoded, guarded, lemma_guarded, lemma_hex_text, lemma_safe_ends, lemma_safe_round_trip,
    lemma_safe_stays_inside, lemma_written_first, reach,
};
use crate::to_markdown::util::safe::{
    SafeConfig, Scope, char_ref, hex_text, is_blank, is_eol, safe_from, safe_text, scope_of,
    written,
};

verus! {

/// Whether `value` holds a character that is whitespace or a control
/// character.
pub open spec fn has_control_or_whitespace(value: Seq<char>) -> bool {
    exists|i: int|
        0 <= i < value.len() && (is_unicode_whitespace(#[trigger] value[i]) || is_unicode_control(
            value[i],
        ))
}

/// Whether `value` holds a character that is whitespace or a control
/// character.
pub fn contain_control_char_or_whitespace(value: &str) -> (found: bool)
    ensures
        found == has_control_or_whitespace(value@),
{
    let chars = chars_of(value);
    let mut i: usize = 0;
    while i < chars.len()
        invariant
            i <= chars.len(),
            chars@ == value@,
            forall|k: int|
                0 <= k < i ==> !(is_unicode_whitespace(#[trigger] value@[k]) || is_unicode_control(
                    value@[k],
                )),
        decreases chars.len() - i,
    {
        if is_whitespace(chars[i]) || is_control(chars[i]) {
            return true;
        }
        i = i + 1;
    }
    false
}

/// The construct of a title between `quote`.
pub open spec fn title_construct(quote: char) -> ConstructName {
    if quote == '"' {
        ConstructName::TitleQuote
    } else if quote == '\'' {
        ConstructName::TitleApostrophe
    } else {
        ConstructName::TitleParen
    }
}

/// The character that closes a title which `quote` opens.
pub open spec fn closing(quote: char) -> char {
    if quote == '(' {
        ')'
    } else {
        quote
    }
}

/// The label of a definition as it is written: between brackets, with a
/// colon and a space behind it.
pub open spec fn label_text(stack: Seq<ConstructName>, node: &Definition) -> Seq<char> {
    "["@ + safe_text(
        stack.push(ConstructName::Definition).push(ConstructName::Label),
        association_text(node),
        "["@,
        "]"@,
        None,
    ) + "]: "@
}

/// The label and the destination of a definition as they are written: a
/// destination that is empty or holds whitespace or a control character
/// stands between angle brackets.
pub open spec fn destination_text(stack: Seq<ConstructName>, node: &Definition) -> Seq<char> {
    let label = label_text(stack, node);
    if node.url@.len() == 0 || has_control_or_whitespace(node.url@) {
        let opened = label + "<"@;
        opened + safe_text(
            stack.push(ConstructName::Definition).push(ConstructName::DestinationLiteral),
            node.url@,
            opened,
            ">"@,
            None,
        ) + ">"@
    } else {
        label + safe_text(
            stack.push(ConstructName::Definition).push(ConstructName::DestinationRaw),
            node.url@,
            label,
            if node.title is Some {
                " "@
            } else {
                ")"@
            },
            None,
        )
    }
}

/// A definition as it is written, with `quote` around its title.
pub open spec fn definition_text(
    stack: Seq<ConstructName>,
    node: &Definition,
    quote: char,
) -> Seq<char> {
    let destination = destination_text(stack, node);
    match node.title {
        Some(title) => destination.push(' ').push(quote) + safe_text(
            stack.push(ConstructName::Definition).push(title_construct(quote)),
            title@,
            node.url@,
            seq![closing(quote)],
            None,
        ) + seq![closing(quote)],
        None => destination,
    }
}

/// The parts of a definition stay where they are written: a parser meets
/// no `]` as itself in the label, no `>` in a destination between angle
/// brackets, no `)` in a destination without them, and in the title not the
/// character that ends it. `start` is what stands in front of the part, and
/// `after` what stands behind it.
pub proof fn lemma_definition_stays_inside(
    stack: Seq<ConstructName>,
    text: Seq<char>,
    start: Seq<char>,
    after: Seq<char>,
    quote: char,
)
    requires
        is_quote(quote),
    ensures
        !bare(
            safe_text(
                stack.push(ConstructName::Definition).push(ConstructName::Label),
                text,
                start,
                after,
                None,
            ),
            ']',
        ),
        !bare(
            safe_text(
                stack.push(ConstructName::Definition).push(ConstructName::DestinationLiteral),
                text,
                start,
                after,
                None,
            ),
            '>',
        ),
        !bare(
            safe_text(
                stack.push(ConstructName::Definition).push(ConstructName::DestinationRaw),
                text,
                start,
                after,
                None,
            ),
            ')',
        ),
        !bare(
            safe_text(
                stack.push(ConstructName::Definition).push(title_construct(quote)),
                text,
                start,
                after,
                None,
            ),
            closing(quote),
        ),
{
    let inside = stack.push(ConstructName::Definition);
    assert(inside.push(ConstructName::Label).last() == ConstructName::Label);
    assert(inside.push(ConstructName::DestinationLiteral).last()
        == ConstructName::DestinationLiteral);
    assert(inside.push(ConstructName::DestinationRaw).last() == ConstructName::DestinationRaw);
    assert(inside.push(title_construct(quote)).last() == title_construct(quote));
    lemma_safe_stays_inside(inside.push(ConstructName::Label), text, start, after, None, ']');
    lemma_safe_stays_inside(
        inside.push(ConstructName::DestinationLiteral),
        text,
        start,
        after,
        None,
        '>',
    );
    lemma_safe_stays_inside(
        inside.push(ConstructName::DestinationRaw),
        text,
        start,
        after,
        None,
        ')',
    );
    lemma_safe_stays_inside(
        inside.push(title_construct(quote)),
        text,
        start,
        after,
        None,
        closing(quote),
    );
}

// ----- Reading a definition back -----

/// What stands in `s` in front of the first `c` that a parser meets as
/// itself, as the parser reads it, and what stands behind that `c`; nothing
/// if the parser meets no `c`.
pub open spec fn closed_by(s: Seq<char>, c: char) -> Option<(Seq<char>, Seq<char>)> {
    let n = reach(s, c);
    if n < s.len() {
        Some((decoded(s.take(n)), s.skip(n + 1)))
    } else {
        None
    }
}

/// Whether `c` is neither whitespace nor a control character.
pub open spec fn is_solid(c: char) -> bool {
    !is_unicode_whitespace(c) && !is_unicode_control(c)
}

/// Number of characters at the start of `s` that are neither whitespace
/// nor control characters.
pub open spec fn solid_run(s: Seq<char>) -> int
    decreases s.len(),
{
    if s.len() > 0 && is_solid(s[0]) {
        1 + solid_run(s.skip(1))
    } else {
        0
    }
}

/// The destination at the start of `s`, as it is read, and what stands
/// behind it: what stands between angle brackets, or else what stands in
/// front of the first whitespace or control character.
pub open spec fn read_destination(s: Seq<char>) -> Option<(Seq<char>, Seq<char>)> {
    if s.len() > 0 && s[0] == '<' {
        closed_by(s.skip(1), '>')
    } else {
        let n = solid_run(s);
        if n > 0 {
            Some((decoded(s.take(n)), s.skip(n)))
        } else {
            None
        }
    }
}

/// Whether `s` holds a character that is no space, no tab and no line
/// ending.
pub open spec fn has_data(s: Seq<char>) -> bool {
    exists|i: int| 0 <= i < s.len() && !is_blank(#[trigger] s[i]) && !is_eol(s[i])
}

/// Whether the line endings at `i` and at `j` in `s` have a blank line
/// between them: nothing but spaces and tabs stands there, and the two are
/// not the carriage return and the line feed of one line ending.
pub open spec fn blank_between(s: Seq<char>, i: int, j: int) -> bool {
    &&& 0 <= i < j < s.len()
    &&& is_eol(s[i])
    &&& is_eol(s[j])
    &&& !(j == i + 1 && s[i] == '\r' && s[j] == '\n')
    &&& forall|k: int| i < k < j ==> is_blank(#[trigger] s[k])
}

/// Whether `s` holds a blank line.
pub open spec fn has_blank_line(s: Seq<char>) -> bool {
    exists|i: int, j: int| blank_between(s, i, j)
}

/// Whether `s` can be the label of a definition: it holds more than
/// whitespace, no blank line, and no more codes than a label can have, where
/// it stands behind the bracket that opens it.
pub open spec fn fits_label(s: Seq<char>) -> bool {
    &&& has_data(s)
    &&& !has_blank_line(s)
    &&& codes_from(s, 1).len() <= LINK_REFERENCE_SIZE_MAX
}

/// The title that `s` is, as it is read: none where `s` is empty, else
/// what stands behind a space between quotation marks, apostrophes or
/// parentheses, and holds no blank line.
pub open spec fn read_title(s: Seq<char>) -> Option<Option<Seq<char>>> {
    if s.len() == 0 {
        Some(None)
    } else if s.len() >= 2 && s[0] == ' ' && is_quote(s[1]) {
        let inside = s.skip(2);
        match closed_by(inside, closing(s[1])) {
            Some((title, rest)) => if rest.len() == 0 && !has_blank_line(
                inside.take(reach(inside, closing(s[1]))),
            ) {
                Some(Some(title))
            } else {
                None
            },
            None => None,
        }
    } else {
        None
    }
}

/// The label, the destination and the title of the definition that `text`
/// is, as they are read; nothing where `text` is not a label between
/// brackets, a colon, a space, a destination and at most a title, or where
/// the label or the title is none that a definition can have: a label of
/// nothing but whitespace or of too many codes, a label or a title with a
/// blank line.
pub open spec fn read_definition(text: Seq<char>) -> Option<
    (Seq<char>, Seq<char>, Option<Seq<char>>),
> {
    if text.len() > 0 && text[0] == '[' {
        let inside = text.skip(1);
        match closed_by(inside, ']') {
            Some((label, rest)) => if rest.len() >= 2 && rest[0] == ':' && rest[1] == ' '
                && fits_label(inside.take(reach(inside, ']'))) {
                match read_destination(rest.skip(2)) {
                    Some((url, rest)) => match read_title(rest) {
                        Some(title) => Some((label, url, title)),
                        None => None,
                    },
                    None => None,
                }
            } else {
                None
            },
            None => None,
        }
    } else {
        None
    }
}

/// The label of `node` as it is written between the brackets.
pub open spec fn written_label(stack: Seq<ConstructName>, node: &Definition) -> Seq<char> {
    safe_text(
        stack.push(ConstructName::Definition).push(ConstructName::Label),
        association_text(node),
        "["@,
        "]"@,
        None,
    )
}

/// The title `title` of `node` as it is written between `quote` and what
/// closes it.
pub open spec fn written_title(
    stack: Seq<ConstructName>,
    node: &Definition,
    title: Seq<char>,
    quote: char,
) -> Seq<char> {
    safe_text(
        stack.push(ConstructName::Definition).push(title_construct(quote)),
        title,
        node.url@,
        seq![closing(quote)],
        None,
    )
}

/// Whether the label and the title of `node` are written as a label and a
/// title can be: the label as it is written holds more than whitespace, no
/// blank line and no more codes than a label can have, and the title as it
/// is written holds no blank line. The construct of definitions asks as
/// much of a label and of a title.
pub open spec fn legible(stack: Seq<ConstructName>, node: &Definition, quote: char) -> bool {
    &&& fits_label(written_label(stack, node))
    &&& match node.title {
        Some(title) => !has_blank_line(written_title(stack, node, title@, quote)),
        None => true,
    }
}

/// The title of `node` as a sequence of characters.
pub open spec fn title_of(node: &Definition) -> Option<Seq<char>> {
    match node.title {
        Some(title) => Some(title@),
        None => None,
    }
}

/// Safe text that is read up to the character behind it is read as the
/// text that was made safe, and what stands behind that character is left.
pub proof fn lemma_closed_by(
    stack: Seq<ConstructName>,
    input: Seq<char>,
    before: Seq<char>,
    c: char,
    rest: Seq<char>,
)
    requires
        guarded(scope_of(stack), c),
    ensures
        closed_by(safe_text(stack, input, before, seq![c], None) + seq![c] + rest, c) == Some(
            (input, rest),
        ),
        ({
            let safe = safe_text(stack, input, before, seq![c], None);
            (safe + seq![c] + rest).take(reach(safe + seq![c] + rest, c)) == safe
        }),
{
    let safe = safe_text(stack, input, before, seq![c], None);
    let s = safe + seq![c] + rest;
    lemma_safe_ends(stack, input, before, seq![c], None, rest);
    lemma_safe_round_trip(stack, input, before, seq![c], None);
    assert(s =~= safe + (seq![c] + rest));
    assert(s.take(safe.len() as int) =~= safe);
    assert(s.skip(safe.len() as int + 1) =~= rest);
}

proof fn lemma_solid_written(
    scope: Scope,
    encode: Option<char>,
    whole: Seq<char>,
    p: int,
    end: int,
)
    requires
        0 <= p < end <= whole.len(),
        is_solid(whole[p]),
    ensures
        forall|i: int|
            0 <= i < written(scope, encode, whole, p, end).len() ==> is_solid(
                #[trigger] written(scope, encode, whole, p, end)[i],
            ),
{
    let c = whole[p];
    let digits = hex_text(c as nat);
    lemma_hex_text(c as nat);
    assert forall|i: int| 0 <= i < char_ref(c).len() implies is_solid(
        #[trigger] char_ref(c)[i],
    ) by {
        if 3 <= i < 3 + digits.len() {
            assert(char_ref(c)[i] == digits[i - 3]);
        }
    }
}

/// Text without whitespace and control characters has none when it is
/// made safe.
proof fn lemma_solid_safe_from(
    scope: Scope,
    encode: Option<char>,
    whole: Seq<char>,
    p: int,
    end: int,
)
    requires
        0 <= p <= end <= whole.len(),
        forall|k: int| p <= k < end ==> is_solid(#[trigger] whole[k]),
    ensures
        forall|i: int|
            0 <= i < safe_from(scope, encode, whole, p, end).len() ==> is_solid(
                #[trigger] safe_from(scope, encode, whole, p, end)[i],
            ),
    decreases end - p,
{
    if p < end {
        let first = written(scope, encode, whole, p, end);
        let rest = safe_from(scope, encode, whole, p + 1, end);
        lemma_solid_written(scope, encode, whole, p, end);
        lemma_solid_safe_from(scope, encode, whole, p + 1, end);
        assert forall|i: int| 0 <= i < (first + rest).len() implies is_solid(
            #[trigger] (first + rest)[i],
        ) by {
            if i < first.len() {
                assert(is_solid(first[i]));
            } else {
                assert(is_solid(rest[i - first.len()]));
            }
        }
    }
}

/// Text without whitespace and control characters is read up to its end
/// where nothing or a space stands behind it.
proof fn lemma_solid_run(a: Seq<char>, rest: Seq<char>)
    requires
        forall|i: int| 0 <= i < a.len() ==> is_solid(#[trigger] a[i]),
        rest.len() == 0 || rest[0] == ' ',
    ensures
        solid_run(a + rest) == a.len(),
    decreases a.len(),
{
    let s = a + rest;
    if a.len() == 0 {
        assert(s =~= rest);
    } else {
        assert(s[0] == a[0]);
        assert(s.skip(1) =~= a.skip(1) + rest);
        assert forall|i: int| 0 <= i < a.skip(1).len() implies is_solid(
            #[trigger] a.skip(1)[i],
        ) by {
            assert(a.skip(1)[i] == a[i + 1]);
        }
        lemma_solid_run(a.skip(1), rest);
    }
}

/// A title that is written is read as the title, unless it holds a blank
/// line as it is written.
proof fn lemma_title_reads_back(stack: Seq<ConstructName>, node: &Definition, quote: char)
    requires
        is_quote(quote),
    ensures
        read_title(
            definition_text(stack, node, quote).skip(destination_text(stack, node).len() as int),
        ) == match node.title {
            Some(title) => if has_blank_line(written_title(stack, node, title@, quote)) {
                None
            } else {
                Some(Some(title@))
            },
            None => Some(None),
        },
{
    let destination = destination_text(stack, node);
    let text = definition_text(stack, node, quote);
    let s = text.skip(destination.len() as int);
    match node.title {
        Some(title) => {
            let inside = stack.push(ConstructName::Definition).push(title_construct(quote));
            let close = closing(quote);
            let safe = safe_text(inside, title@, node.url@, seq![close], None);
            assert(inside.last() == title_construct(quote));
            assert(guarded(scope_of(inside), close));
            assert(s =~= seq![' ', quote] + safe + seq![close]);
            assert(s[0] == ' ' && s[1] == quote);
            assert(s.skip(2) =~= safe + seq![close] + Seq::<char>::empty());
            lemma_closed_by(inside, title@, node.url@, close, Seq::empty());
        },
        None => {
            assert(s =~= Seq::<char>::empty());
        },
    }
}

/// A destination that is written is read as the destination: one that is
/// written without angle brackets around it does not begin with one.
proof fn lemma_destination_reads_back(
    stack: Seq<ConstructName>,
    node: &Definition,
    rest: Seq<char>,
)
    requires
        rest.len() == 0 || rest[0] == ' ',
    ensures
        read_destination(
            destination_text(stack, node).skip(label_text(stack, node).len() as int) + rest,
        ) == Some((node.url@, rest)),
{
    reveal_strlit("<");
    reveal_strlit(">");
    reveal_strlit(" ");
    reveal_strlit(")");
    let label = label_text(stack, node);
    let s = destination_text(stack, node).skip(label.len() as int) + rest;
    let url = node.url@;
    if url.len() == 0 || has_control_or_whitespace(url) {
        let inside = stack.push(ConstructName::Definition).push(
            ConstructName::DestinationLiteral,
        );
        let safe = safe_text(inside, url, label + "<"@, ">"@, None);
        assert(inside.last() == ConstructName::DestinationLiteral);
        assert(guarded(scope_of(inside), '>'));
        assert(">"@ =~= seq!['>']);
        assert(s =~= seq!['<'] + safe + seq!['>'] + rest);
        assert(s[0] == '<');
        assert(s.skip(1) =~= safe + seq!['>'] + rest);
        lemma_closed_by(inside, url, label + "<"@, '>', rest);
    } else {
        let inside = stack.push(ConstructName::Definition).push(ConstructName::DestinationRaw);
        let after = if node.title is Some {
            " "@
        } else {
            ")"@
        };
        let safe = safe_text(inside, url, label, after, None);
        let whole = label + url + after;
        let from = label.len() as int;
        let end = (label.len() + url.len()) as int;
        assert forall|k: int| from <= k < end implies is_solid(#[trigger] whole[k]) by {
            assert(whole[k] == url[k - from]);
        }
        lemma_solid_safe_from(scope_of(inside), None, whole, from, end);
        lemma_written_first(scope_of(inside), None, whole, from, end);
        assert(inside.last() == ConstructName::DestinationRaw);
        assert(guarded(scope_of(inside), '<'));
        if whole[from] == '<' {
            lemma_guarded(scope_of(inside), whole, from, '<');
        }
        assert(s =~= safe + rest);
        assert(s[0] == safe[0]);
        assert(s[0] != '<');
        lemma_solid_run(safe, rest);
        lemma_safe_round_trip(inside, url, label, after, None);
        assert(s.take(safe.len() as int) =~= safe);
        assert(s.skip(safe.len() as int) =~= rest);
    }
}

/// A label that is written is read as the label, whatever stands behind
/// it.
proof fn lemma_label_reads_back(stack: Seq<ConstructName>, node: &Definition, behind: Seq<char>)
    ensures
        (label_text(stack, node) + behind)[0] == '[',
        closed_by((label_text(stack, node) + behind).skip(1), ']') == Some(
            (association_text(node), seq![':', ' '] + behind),
        ),
        ({
            let inside = (label_text(stack, node) + behind).skip(1);
            inside.take(reach(inside, ']')) == written_label(stack, node)
        }),
{
    reveal_strlit("[");
    reveal_strlit("]");
    reveal_strlit("]: ");
    let label = label_text(stack, node);
    let inside = stack.push(ConstructName::Definition).push(ConstructName::Label);
    let safe = safe_text(inside, association_text(node), "["@, "]"@, None);
    assert(inside.last() == ConstructName::Label);
    assert(guarded(scope_of(inside), ']'));
    assert("]"@ =~= seq![']']);
    assert(label =~= seq!['['] + safe + seq![']', ':', ' ']);
    assert((label + behind).skip(1) =~= safe + seq![']'] + (seq![':', ' '] + behind));
    lemma_closed_by(inside, association_text(node), "["@, ']', seq![':', ' '] + behind);
}

/// A definition is written as its label, its destination and its title,
/// one behind the other; the title begins with a space.
proof fn lemma_definition_parts(stack: Seq<ConstructName>, node: &Definition, quote: char)
    ensures
        label_text(stack, node).len() <= destination_text(stack, node).len()
            <= definition_text(stack, node, quote).len(),
        definition_text(stack, node, quote) == label_text(stack, node) + (destination_text(
            stack,
            node,
        ).skip(label_text(stack, node).len() as int) + definition_text(stack, node, quote).skip(
            destination_text(stack, node).len() as int,
        )),
        ({
            let title = definition_text(stack, node, quote).skip(
                destination_text(stack, node).len() as int,
            );
            title.len() == 0 || title[0] == ' '
        }),
{
    let text = definition_text(stack, node, quote);
    let label = label_text(stack, node);
    let destination = destination_text(stack, node);
    assert(destination.len() >= label.len());
    assert(destination.take(label.len() as int) =~= label);
    assert(text.len() >= destination.len());
    assert(text.take(destination.len() as int) =~= destination);
    let title = text.skip(destination.len() as int);
    assert(text =~= label + (destination.skip(label.len() as int) + title));
    if node.title is Some {
        assert(title[0] == ' ');
    } else {
        assert(title =~= Seq::<char>::empty());
    }
}

/// What is written for a character holds a space, a tab or a line
/// ending only where it is the character itself.
proof fn lemma_written_chars(
    scope: Scope,
    encode: Option<char>,
    whole: Seq<char>,
    p: int,
    end: int,
)
    requires
        0 <= p < end <= whole.len(),
    ensures
        forall|i: int|
            0 <= i < written(scope, encode, whole, p, end).len() && (is_blank(
                #[trigger] written(scope, encode, whole, p, end)[i],
            ) || is_eol(written(scope, encode, whole, p, end)[i])) ==> written(
                scope,
                encode,
                whole,
                p,
                end,
            ) == seq![whole[p]],
{
    let c = whole[p];
    let digits = hex_text(c as nat);
    lemma_hex_text(c as nat);
    assert forall|i: int| 0 <= i < char_ref(c).len() implies !is_blank(
        #[trigger] char_ref(c)[i],
    ) && !is_eol(char_ref(c)[i]) by {
        if 3 <= i < 3 + digits.len() {
            assert(char_ref(c)[i] == digits[i - 3]);
        }
    }
}

/// Text that holds more than whitespace holds more than whitespace when
/// it is made safe.
proof fn lemma_data_safe_from(
    scope: Scope,
    encode: Option<char>,
    whole: Seq<char>,
    p: int,
    end: int,
    q: int,
)
    requires
        0 <= p <= q < end <= whole.len(),
        !is_blank(whole[q]),
        !is_eol(whole[q]),
    ensures
        has_data(safe_from(scope, encode, whole, p, end)),
    decreases q - p,
{
    let first = written(scope, encode, whole, p, end);
    let rest = safe_from(scope, encode, whole, p + 1, end);
    let s = safe_from(scope, encode, whole, p, end);
    lemma_written_first(scope, encode, whole, p, end);
    if p == q {
        assert(!is_blank(s[0]) && !is_eol(s[0]));
    } else {
        lemma_data_safe_from(scope, encode, whole, p + 1, end, q);
        let k = choose|k: int|
            0 <= k < rest.len() && !is_blank(#[trigger] rest[k]) && !is_eol(rest[k]);
        assert(s[first.len() + k] == rest[k]);
    }
}

/// Spaces and tabs at the start of safe text, and a line ending behind
/// them, are those of the text that was made safe.
proof fn lemma_leading(
    scope: Scope,
    encode: Option<char>,
    whole: Seq<char>,
    p: int,
    end: int,
    m: int,
)
    requires
        0 <= p <= end <= whole.len(),
        0 <= m < safe_from(scope, encode, whole, p, end).len(),
        forall|k: int|
            0 <= k < m ==> is_blank(#[trigger] safe_from(scope, encode, whole, p, end)[k]),
        is_eol(safe_from(scope, encode, whole, p, end)[m]),
    ensures
        p + m < end,
        forall|k: int| 0 <= k < m ==> is_blank(#[trigger] whole[p + k]),
        whole[p + m] == safe_from(scope, encode, whole, p, end)[m],
    decreases m,
{
    let s = safe_from(scope, encode, whole, p, end);
    let first = written(scope, encode, whole, p, end);
    let rest = safe_from(scope, encode, whole, p + 1, end);
    lemma_written_first(scope, encode, whole, p, end);
    lemma_written_chars(scope, encode, whole, p, end);
    assert(s[0] == first[0]);
    if m == 0 {
        assert(first == seq![whole[p]]);
    } else {
        assert(is_blank(s[0]));
        assert(first == seq![whole[p]]);
        assert forall|k: int| 0 <= k < m - 1 implies is_blank(#[trigger] rest[k]) by {
            assert(rest[k] == s[k + 1]);
        }
        assert(rest[m - 1] == s[m]);
        lemma_leading(scope, encode, whole, p + 1, end, m - 1);
        assert forall|k: int| 0 <= k < m implies is_blank(#[trigger] whole[p + k]) by {
            if k > 0 {
                assert(whole[p + 1 + (k - 1)] == whole[p + k]);
            }
        }
    }
}

/// Text that holds no blank line holds none when it is made safe.
proof fn lemma_lines_safe_from(
    scope: Scope,
    encode: Option<char>,
    whole: Seq<char>,
    p: int,
    end: int,
    i: int,
    j: int,
)
    requires
        0 <= p <= end <= whole.len(),
        blank_between(safe_from(scope, encode, whole, p, end), i, j),
    ensures
        has_blank_line(whole.subrange(p, end)),
    decreases end - p,
{
    let s = safe_from(scope, encode, whole, p, end);
    let first = written(scope, encode, whole, p, end);
    let rest = safe_from(scope, encode, whole, p + 1, end);
    let part = whole.subrange(p, end);
    lemma_written_first(scope, encode, whole, p, end);
    lemma_written_chars(scope, encode, whole, p, end);
    if i >= first.len() {
        let n = first.len() as int;
        assert forall|k: int| i - n < k < j - n implies is_blank(#[trigger] rest[k]) by {
            assert(rest[k] == s[k + n]);
        }
        assert(rest[i - n] == s[i] && rest[j - n] == s[j]);
        assert(blank_between(rest, i - n, j - n));
        lemma_lines_safe_from(scope, encode, whole, p + 1, end, i - n, j - n);
        let inner = whole.subrange(p + 1, end);
        let (a, b) = choose|a: int, b: int| blank_between(inner, a, b);
        assert forall|k: int| a + 1 < k < b + 1 implies is_blank(#[trigger] part[k]) by {
            assert(part[k] == inner[k - 1]);
        }
        assert(part[a + 1] == inner[a] && part[b + 1] == inner[b]);
        assert(blank_between(part, a + 1, b + 1));
    } else {
        assert(s[i] == first[i]);
        assert(first == seq![whole[p]]);
        assert forall|k: int| 0 <= k < j - 1 implies is_blank(#[trigger] rest[k]) by {
            assert(rest[k] == s[k + 1]);
        }
        assert(rest[j - 1] == s[j]);
        lemma_leading(scope, encode, whole, p + 1, end, j - 1);
        assert forall|k: int| 0 < k < j implies is_blank(#[trigger] part[k]) by {
            assert(part[k] == whole[p + 1 + (k - 1)]);
        }
        assert(part[0] == s[0] && part[j] == s[j]);
        assert(blank_between(part, 0, j));
    }
}

/// A node whose label holds more than whitespace, and whose label and
/// title hold no blank line, is written with a label and a title as they
/// can be, where the label as it is written has no more codes than a label
/// can have.
pub proof fn lemma_legible(stack: Seq<ConstructName>, node: &Definition, quote: char)
    requires
        has_data(association_text(node)),
        !has_blank_line(association_text(node)),
        node.title matches Some(title) ==> !has_blank_line(title@),
        codes_from(written_label(stack, node), 1).len() <= LINK_REFERENCE_SIZE_MAX,
    ensures
        legible(stack, node, quote),
{
    let label = association_text(node);
    let inside = stack.push(ConstructName::Definition).push(ConstructName::Label);
    let whole = "["@ + label + "]"@;
    let from = "["@.len() as int;
    let end = from + label.len();
    assert(whole.subrange(from, end) =~= label);
    let q = choose|q: int|
        0 <= q < label.len() && !is_blank(#[trigger] label[q]) && !is_eol(label[q]);
    assert(whole[from + q] == label[q]);
    lemma_data_safe_from(scope_of(inside), None, whole, from, end, from + q);
    if has_blank_line(written_label(stack, node)) {
        let (i, j) = choose|i: int, j: int| blank_between(written_label(stack, node), i, j);
        lemma_lines_safe_from(scope_of(inside), None, whole, from, end, i, j);
    }
    match node.title {
        Some(title) => {
            let inside = stack.push(ConstructName::Definition).push(title_construct(quote));
            let written = written_title(stack, node, title@, quote);
            let whole = node.url@ + title@ + seq![closing(quote)];
            let from = node.url@.len() as int;
            let end = from + title@.len();
            assert(whole.subrange(from, end) =~= title@);
            if has_blank_line(written) {
                let (i, j) = choose|i: int, j: int| blank_between(written, i, j);
                lemma_lines_safe_from(scope_of(inside), None, whole, from, end, i, j);
            }
        },
        None => {},
    }
}

/// A definition that is written is read as the definition: the label, the
/// destination and the title that a reader finds in it are those of the
/// node. This holds of every node whose label and title are written as a
/// label and a title can be.
pub proof fn lemma_definition_reads_back(
    stack: Seq<ConstructName>,
    node: &Definition,
    quote: char,
)
    requires
        is_quote(quote),
        legible(stack, node, quote),
    ensures
        read_definition(definition_text(stack, node, quote)) == Some(
            (association_text(node), node.url@, title_of(node)),
        ),
{
    let text = definition_text(stack, node, quote);
    let label = label_text(stack, node);
    let destination = destination_text(stack, node);
    let title = text.skip(destination.len() as int);
    let behind = destination.skip(label.len() as int) + title;
    lemma_definition_parts(stack, node, quote);
    lemma_label_reads_back(stack, node, behind);
    let rest = seq![':', ' '] + behind;
    assert(rest[0] == ':' && rest[1] == ' ');
    assert(rest.skip(2) =~= behind);
    lemma_destination_reads_back(stack, node, title);
    lemma_title_reads_back(stack, node, quote);
}

/// A definition whose label or title is not written as a label or a
/// title can be is read as none.
pub proof fn lemma_definition_refused(stack: Seq<ConstructName>, node: &Definition, quote: char)
    requires
        is_quote(quote),
        !legible(stack, node, quote),
    ensures
        read_definition(definition_text(stack, node, quote)) is None,
{
    let text = definition_text(stack, node, quote);
    let label = label_text(stack, node);
    let destination = destination_text(stack, node);
    let title = text.skip(destination.len() as int);
    let behind = destination.skip(label.len() as int) + title;
    lemma_definition_parts(stack, node, quote);
    lemma_label_reads_back(stack, node, behind);
    let rest = seq![':', ' '] + behind;
    assert(rest[0] == ':' && rest[1] == ' ');
    assert(rest.skip(2) =~= behind);
    lemma_destination_reads_back(stack, node, title);
    lemma_title_reads_back(stack, node, quote);
}

impl Definition {
    /// Write the definition.
    ///
    /// The serializer is in the same constructs afterwards as before. The
    /// definition cannot be written where the options do not name a
    /// character that can stand around a title.
    pub fn handle(&self, state: &mut State) -> (result: Result<String, Message>)
        ensures
            final(state).stack@ == old(state).stack@,
            final(state).options == old(state).options,
            is_quote(old(state).options.quote) ==> {
                &&& result matches Ok(value)
                &&& value@ == definition_text(old(state).stack@, self, old(state).options.quote)
            },
            !is_quote(old(state).options.quote) ==> {
                &&& result matches Err(message)
                &&& message.construct == ConstructName::Definition
                &&& message.reason@ == quote_reason(old(state).options.quote)
                &&& message.rule_id@ == "unexpected-marker"@
                &&& message.source@ == "flowmark"@
            },
    {
        let quote = match check_quote(state) {
            Ok(quote) => quote,
            Err(message) => {
                return Err(message);
            },
        };
        let ghost stack = state.stack@;
        proof {
            reveal_strlit("[");
            reveal_strlit("]");
            reveal_strlit("]: ");
            reveal_strlit("<");
            reveal_strlit(">");
            reveal_strlit(" ");
            reveal_strlit(")");
        }

        state.enter(ConstructName::Definition);
        state.enter(ConstructName::Label);

        let mut value = String::from_str("[");

        let label = state.association(self);
        let safe = state.safe(label.as_str(), &SafeConfig::new(value.as_str(), "]", None));
        value.append(safe.as_str());

        value.append("]: ");

        state.exit();
        proof {
            assert(state.stack@ =~= stack.push(ConstructName::Definition));
            assert(value@ == label_text(stack, self));
        }

        if self.url.as_str().unicode_len() == 0 || contain_control_char_or_whitespace(
            self.url.as_str(),
        ) {
            state.enter(ConstructName::DestinationLiteral);
            push_char(&mut value, '<');
            proof {
                assert(value@ =~= label_text(stack, self) + "<"@);
            }
            let safe = state.safe(
                self.url.as_str(),
                &SafeConfig::new(value.as_str(), ">", None),
            );
            value.append(safe.as_str());
            push_char(&mut value, '>');
            proof {
                assert(value@ =~= destination_text(stack, self));
            }
        } else {
            state.enter(ConstructName::DestinationRaw);
            let after = if self.title.is_some() {
                " "
            } else {
                ")"
            };
            let safe = state.safe(
                self.url.as_str(),
                &SafeConfig::new(value.as_str(), after, None),
            );
            value.append(safe.as_str());
        }

        state.exit();
        proof {
            assert(state.stack@ =~= stack.push(ConstructName::Definition));
            assert(value@ == destination_text(stack, self));
        }

        if let Some(title) = &self.title {
            let title_construct_name = if quote == '"' {
                ConstructName::TitleQuote
            } else if quote == '\'' {
                ConstructName::TitleApostrophe
            } else {
                ConstructName::TitleParen
            };
            let close = if quote == '(' {
                ')'
            } else {
                quote
            };

            state.enter(title_construct_name);
            push_char(&mut value, ' ');
            push_char(&mut value, quote);

            let mut after = String::new();
            push_char(&mut after, close);
            proof {
                assert(after@ =~= seq![close]);
            }
            let safe = state.safe(
                title.as_str(),
                &SafeConfig::new(self.url.as_str(), after.as_str(), None),
            );
            value.append(safe.as_str());

            push_char(&mut value, close);
            state.exit();
            proof {
                assert(state.stack@ =~= stack.push(ConstructName::Definition));
                assert(value@ =~= definition_text(stack, self, quote));
            }
        }

        state.exit();
        proof {
            assert(state.stack@ =~= stack);
        }

        Ok(value)
    }
}

} // verus!
