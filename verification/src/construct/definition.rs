//! A definition: a label between brackets, a colon, a destination, and a
//! title at will, with nothing behind them in the line.
//!
//! The label and the title can go over several lines, but not over a blank
//! line. The destination stands between angle brackets, or holds neither
//! whitespace nor control characters and no parenthesis without its partner.

use vstd::prelude::*;
use crate::code::Code;
use crate::event::TokenType;
use crate::state::{Family, State, StateFnResult, StateName};
use crate::tokenizer::{AttemptKind, Tokenizer, TokenizerView, left, remainder};

verus! {

/// The most codes in a label.
pub const LINK_REFERENCE_SIZE_MAX: usize = 999;

/// Whether `code` is an ASCII control character.
pub open spec fn is_control(code: Code) -> bool {
    code matches Code::Char(c) && (c < ' ' || c == '\u{7F}')
}

/// Whether `code` is an ASCII control character.
pub fn control(code: Code) -> (b: bool)
    ensures
        b == is_control(code),
{
    match code {
        Code::Char(c) => c < ' ' || c == '\u{7F}',
        _ => false,
    }
}

/// The character that ends a title which `code` begins, if it begins one.
pub open spec fn closer_of(code: Code) -> Option<char> {
    match code {
        Code::Char(c) => if c == '"' || c == '\'' {
            Some(c)
        } else if c == '(' {
            Some(')')
        } else {
            None
        },
        _ => None,
    }
}

/// The character that ends a title which `code` begins, if it begins one.
pub fn closer(code: Code) -> (found: Option<char>)
    ensures
        found == closer_of(code),
{
    match code {
        Code::Char(c) => if c == '"' || c == '\'' {
            Some(c)
        } else if c == '(' {
            Some(')')
        } else {
            None
        },
        _ => None,
    }
}

/// What [`start`] does.
pub open spec fn start_step(t: TokenizerView, code: Code) -> (TokenizerView, StateFnResult) {
    if code == Code::Char('[') {
        (
            t.enter(TokenType::Definition).enter(TokenType::DefinitionLabel).enter(
                TokenType::DefinitionLabelMarker,
            ).consume().exit(TokenType::DefinitionLabelMarker),
            (State::Next(StateName::DefinitionLabelAtBreak { size: 0, data: false }), None),
        )
    } else {
        (t, (State::Failure, remainder(code, false)))
    }
}

/// Before a definition.
///
/// ```markdown
/// |[a]: b "c"
/// ```
pub fn start(tokenizer: &mut Tokenizer, code: Code) -> (result: StateFnResult)
    requires
        old(tokenizer)@.awaits(StateName::DefinitionStart, code),
    ensures
        old(tokenizer)@.stepped(StateName::DefinitionStart, code, final(tokenizer)@, result),
        (final(tokenizer)@, result) == start_step(old(tokenizer)@, code),
{
    if code.is('[') {
        tokenizer.enter(TokenType::Definition);
        tokenizer.enter(TokenType::DefinitionLabel);
        tokenizer.enter(TokenType::DefinitionLabelMarker);
        tokenizer.consume(code);
        tokenizer.exit(TokenType::DefinitionLabelMarker);
        (State::Next(StateName::DefinitionLabelAtBreak { size: 0, data: false }), None)
    } else {
        (State::Failure, left(code, false))
    }
}

/// What [`label_at_break`] does.
pub open spec fn label_at_break_step(t: TokenizerView, code: Code, size: usize, data: bool) -> (
    TokenizerView,
    StateFnResult,
) {
    if code == Code::Eof {
        (t, (State::Failure, remainder(code, false)))
    } else if code == Code::Char('[') {
        (t, (State::Failure, remainder(code, false)))
    } else if size > LINK_REFERENCE_SIZE_MAX {
        (t, (State::Failure, remainder(code, false)))
    } else if code == Code::Char(']') && !data {
        (t, (State::Failure, remainder(code, false)))
    } else if code == Code::Char(']') {
        (
            t.enter(
                TokenType::DefinitionLabelMarker,
            ).consume().exit(TokenType::DefinitionLabelMarker).exit(TokenType::DefinitionLabel),
            (State::Next(StateName::DefinitionLabelAfter), None),
        )
    } else if code.is_eol() {
        (
            t.enter(TokenType::LineEnding).consume().exit(TokenType::LineEnding),
            (
                State::Next(
                    StateName::DefinitionLabelLineStart { size: (size + 1) as usize, data },
                ),
                None,
            ),
        )
    } else if code == Code::Char('\\') {
        (
            t.enter(TokenType::DefinitionLabelData).consume(),
            (
                State::Next(StateName::DefinitionLabelEscape { size: (size + 1) as usize, data }),
                None,
            ),
        )
    } else if code.is_space_or_tab() {
        (
            t.enter(TokenType::DefinitionLabelData).consume(),
            (
                State::Next(StateName::DefinitionLabelInside { size: (size + 1) as usize, data }),
                None,
            ),
        )
    } else {
        (
            t.enter(TokenType::DefinitionLabelData).consume(),
            (
                State::Next(
                    StateName::DefinitionLabelInside { size: (size + 1) as usize, data: true },
                ),
                None,
            ),
        )
    }
}

/// In the label, in front of data, a line ending or the end of the label.
///
/// ```markdown
/// [|a]: b "c"
/// ```
pub fn label_at_break(tokenizer: &mut Tokenizer, code: Code, size: usize, data: bool) -> (result:
    StateFnResult)
    requires
        old(tokenizer)@.awaits(StateName::DefinitionLabelAtBreak { size, data }, code),
    ensures
        old(tokenizer)@.stepped(
            StateName::DefinitionLabelAtBreak { size, data },
            code,
            final(tokenizer)@,
            result,
        ),
        (final(tokenizer)@, result) == label_at_break_step(old(tokenizer)@, code, size, data),
{
    if code.at_end() {
        (State::Failure, left(code, false))
    } else if code.is('[') {
        (State::Failure, left(code, false))
    } else if size > LINK_REFERENCE_SIZE_MAX {
        (State::Failure, left(code, false))
    } else if code.is(']') && !data {
        (State::Failure, left(code, false))
    } else if code.is(']') {
        tokenizer.enter(TokenType::DefinitionLabelMarker);
        tokenizer.consume(code);
        tokenizer.exit(TokenType::DefinitionLabelMarker);
        tokenizer.exit(TokenType::DefinitionLabel);
        (State::Next(StateName::DefinitionLabelAfter), None)
    } else if code.eol() {
        tokenizer.enter(TokenType::LineEnding);
        tokenizer.consume(code);
        tokenizer.exit(TokenType::LineEnding);
        (State::Next(StateName::DefinitionLabelLineStart { size: size + 1, data }), None)
    } else if code.is('\\') {
        tokenizer.enter(TokenType::DefinitionLabelData);
        tokenizer.consume(code);
        (State::Next(StateName::DefinitionLabelEscape { size: size + 1, data }), None)
    } else if code.space_or_tab() {
        tokenizer.enter(TokenType::DefinitionLabelData);
        tokenizer.consume(code);
        (State::Next(StateName::DefinitionLabelInside { size: size + 1, data }), None)
    } else {
        tokenizer.enter(TokenType::DefinitionLabelData);
        tokenizer.consume(code);
        (State::Next(StateName::DefinitionLabelInside { size: size + 1, data: true }), None)
    }
}

/// What [`label_line_start`] does.
pub open spec fn label_line_start_step(t: TokenizerView, code: Code, size: usize, data: bool) -> (
    TokenizerView,
    StateFnResult,
) {
    if code.is_line_end() {
        (t, (State::Failure, remainder(code, false)))
    } else if size > LINK_REFERENCE_SIZE_MAX {
        (t, (State::Failure, remainder(code, false)))
    } else if code.is_space_or_tab() {
        (
            t.enter(TokenType::Whitespace).consume(),
            (
                State::Next(
                    StateName::DefinitionLabelLineWhitespace { size: (size + 1) as usize, data },
                ),
                None,
            ),
        )
    } else {
        label_at_break_step(t, code, size, data)
    }
}

/// At the start of a further line of the label: a blank line ends what
/// could have been a label.
///
/// ```markdown
/// [a
/// |b]: c
/// ```
pub fn label_line_start(tokenizer: &mut Tokenizer, code: Code, size: usize, data: bool) -> (result:
    StateFnResult)
    requires
        old(tokenizer)@.awaits(StateName::DefinitionLabelLineStart { size, data }, code),
    ensures
        old(tokenizer)@.stepped(
            StateName::DefinitionLabelLineStart { size, data },
            code,
            final(tokenizer)@,
            result,
        ),
        (final(tokenizer)@, result) == label_line_start_step(old(tokenizer)@, code, size, data),
{
    if code.line_end() {
        (State::Failure, left(code, false))
    } else if size > LINK_REFERENCE_SIZE_MAX {
        (State::Failure, left(code, false))
    } else if code.space_or_tab() {
        tokenizer.enter(TokenType::Whitespace);
        tokenizer.consume(code);
        (State::Next(StateName::DefinitionLabelLineWhitespace { size: size + 1, data }), None)
    } else {
        label_at_break(tokenizer, code, size, data)
    }
}

/// What [`label_line_whitespace`] does.
pub open spec fn label_line_whitespace_step(
    t: TokenizerView,
    code: Code,
    size: usize,
    data: bool,
) -> (
    TokenizerView,
    StateFnResult,
) {
    if code.is_line_end() {
        (t, (State::Failure, remainder(code, false)))
    } else if size > LINK_REFERENCE_SIZE_MAX {
        (t, (State::Failure, remainder(code, false)))
    } else if code.is_space_or_tab() {
        (
            t.consume(),
            (
                State::Next(
                    StateName::DefinitionLabelLineWhitespace { size: (size + 1) as usize, data },
                ),
                None,
            ),
        )
    } else {
        label_at_break_step(t.exit(TokenType::Whitespace), code, size, data)
    }
}

/// In the whitespace at the start of a further line of the label.
///
/// ```markdown
/// [a
///  | b]: c
/// ```
pub fn label_line_whitespace(
    tokenizer: &mut Tokenizer,
    code: Code,
    size: usize,
    data: bool,
) -> (result:
    StateFnResult)
    requires
        old(tokenizer)@.awaits(StateName::DefinitionLabelLineWhitespace { size, data }, code),
    ensures
        old(tokenizer)@.stepped(
            StateName::DefinitionLabelLineWhitespace { size, data },
            code,
            final(tokenizer)@,
            result,
        ),
        (final(tokenizer)@, result) == label_line_whitespace_step(
            old(tokenizer)@,
            code,
            size,
            data,
        ),
{
    if code.line_end() {
        (State::Failure, left(code, false))
    } else if size > LINK_REFERENCE_SIZE_MAX {
        (State::Failure, left(code, false))
    } else if code.space_or_tab() {
        tokenizer.consume(code);
        (State::Next(StateName::DefinitionLabelLineWhitespace { size: size + 1, data }), None)
    } else {
        tokenizer.exit(TokenType::Whitespace);
        label_at_break(tokenizer, code, size, data)
    }
}

/// What [`label_inside`] does.
pub open spec fn label_inside_step(t: TokenizerView, code: Code, size: usize, data: bool) -> (
    TokenizerView,
    StateFnResult,
) {
    if code.is_line_end()
        || code == Code::Char('[')
        || code == Code::Char(']')
        || size > LINK_REFERENCE_SIZE_MAX {
        label_at_break_step(t.exit(TokenType::DefinitionLabelData), code, size, data)
    } else if code == Code::Char('\\') {
        (
            t.consume(),
            (
                State::Next(StateName::DefinitionLabelEscape { size: (size + 1) as usize, data }),
                None,
            ),
        )
    } else if code.is_space_or_tab() {
        (
            t.consume(),
            (
                State::Next(StateName::DefinitionLabelInside { size: (size + 1) as usize, data }),
                None,
            ),
        )
    } else {
        (
            t.consume(),
            (
                State::Next(
                    StateName::DefinitionLabelInside { size: (size + 1) as usize, data: true },
                ),
                None,
            ),
        )
    }
}

/// In the data of the label.
///
/// ```markdown
/// [a|b]: c
/// ```
pub fn label_inside(tokenizer: &mut Tokenizer, code: Code, size: usize, data: bool) -> (result:
    StateFnResult)
    requires
        old(tokenizer)@.awaits(StateName::DefinitionLabelInside { size, data }, code),
    ensures
        old(tokenizer)@.stepped(
            StateName::DefinitionLabelInside { size, data },
            code,
            final(tokenizer)@,
            result,
        ),
        (final(tokenizer)@, result) == label_inside_step(old(tokenizer)@, code, size, data),
{
    if code.line_end() || code.is('[') || code.is(']') || size > LINK_REFERENCE_SIZE_MAX {
        tokenizer.exit(TokenType::DefinitionLabelData);
        label_at_break(tokenizer, code, size, data)
    } else if code.is('\\') {
        tokenizer.consume(code);
        (State::Next(StateName::DefinitionLabelEscape { size: size + 1, data }), None)
    } else if code.space_or_tab() {
        tokenizer.consume(code);
        (State::Next(StateName::DefinitionLabelInside { size: size + 1, data }), None)
    } else {
        tokenizer.consume(code);
        (State::Next(StateName::DefinitionLabelInside { size: size + 1, data: true }), None)
    }
}

/// What [`label_escape`] does.
pub open spec fn label_escape_step(t: TokenizerView, code: Code, size: usize, data: bool) -> (
    TokenizerView,
    StateFnResult,
) {
    if (code == Code::Char('[') || code == Code::Char(']') || code == Code::Char('\\'))
        && size <= LINK_REFERENCE_SIZE_MAX {
        (
            t.consume(),
            (
                State::Next(
                    StateName::DefinitionLabelInside { size: (size + 1) as usize, data: true },
                ),
                None,
            ),
        )
    } else {
        label_inside_step(t, code, size, true)
    }
}

/// Behind a backslash in the label.
///
/// ```markdown
/// [a\|]b]: c
/// ```
pub fn label_escape(tokenizer: &mut Tokenizer, code: Code, size: usize, data: bool) -> (result:
    StateFnResult)
    requires
        old(tokenizer)@.awaits(StateName::DefinitionLabelEscape { size, data }, code),
    ensures
        old(tokenizer)@.stepped(
            StateName::DefinitionLabelEscape { size, data },
            code,
            final(tokenizer)@,
            result,
        ),
        (final(tokenizer)@, result) == label_escape_step(old(tokenizer)@, code, size, data),
{
    if (code.is('[') || code.is(']') || code.is('\\')) && size <= LINK_REFERENCE_SIZE_MAX {
        tokenizer.consume(code);
        (State::Next(StateName::DefinitionLabelInside { size: size + 1, data: true }), None)
    } else {
        label_inside(tokenizer, code, size, true)
    }
}

/// What [`label_after`] does.
pub open spec fn label_after_step(t: TokenizerView, code: Code) -> (TokenizerView, StateFnResult) {
    if code == Code::Char(':') {
        (
            t.enter(TokenType::DefinitionMarker).consume().exit(TokenType::DefinitionMarker),
            (State::Next(StateName::DefinitionMarkerAfter), None),
        )
    } else {
        (t, (State::Failure, remainder(code, false)))
    }
}

/// Behind the label.
///
/// ```markdown
/// [a]|: b "c"
/// ```
pub fn label_after(tokenizer: &mut Tokenizer, code: Code) -> (result: StateFnResult)
    requires
        old(tokenizer)@.awaits(StateName::DefinitionLabelAfter, code),
    ensures
        old(tokenizer)@.stepped(StateName::DefinitionLabelAfter, code, final(tokenizer)@, result),
        (final(tokenizer)@, result) == label_after_step(old(tokenizer)@, code),
{
    if code.is(':') {
        tokenizer.enter(TokenType::DefinitionMarker);
        tokenizer.consume(code);
        tokenizer.exit(TokenType::DefinitionMarker);
        (State::Next(StateName::DefinitionMarkerAfter), None)
    } else {
        (State::Failure, left(code, false))
    }
}

/// What [`marker_after`] does.
pub open spec fn marker_after_step(t: TokenizerView, code: Code) -> (TokenizerView, StateFnResult) {
    if code.is_space_or_tab() {
        (
            t.enter(TokenType::Whitespace).consume(),
            (
                State::Next(StateName::DefinitionDestinationBeforeWhitespace { seen_eol: false }),
                None,
            ),
        )
    } else if code.is_eol() {
        (
            t.enter(TokenType::LineEnding).consume().exit(TokenType::LineEnding),
            (State::Next(StateName::DefinitionDestinationBeforeLine), None),
        )
    } else {
        destination_start_step(t, code)
    }
}

/// Behind the colon: whitespace and one line ending can stand in front of
/// the destination.
///
/// ```markdown
/// [a]:| b "c"
/// ```
pub fn marker_after(tokenizer: &mut Tokenizer, code: Code) -> (result: StateFnResult)
    requires
        old(tokenizer)@.awaits(StateName::DefinitionMarkerAfter, code),
    ensures
        old(tokenizer)@.stepped(StateName::DefinitionMarkerAfter, code, final(tokenizer)@, result),
        (final(tokenizer)@, result) == marker_after_step(old(tokenizer)@, code),
{
    if code.space_or_tab() {
        tokenizer.enter(TokenType::Whitespace);
        tokenizer.consume(code);
        (State::Next(StateName::DefinitionDestinationBeforeWhitespace { seen_eol: false }), None)
    } else if code.eol() {
        tokenizer.enter(TokenType::LineEnding);
        tokenizer.consume(code);
        tokenizer.exit(TokenType::LineEnding);
        (State::Next(StateName::DefinitionDestinationBeforeLine), None)
    } else {
        destination_start(tokenizer, code)
    }
}

/// What [`destination_before_whitespace`] does.
pub open spec fn destination_before_whitespace_step(
    t: TokenizerView,
    code: Code,
    seen_eol: bool,
) -> (
    TokenizerView,
    StateFnResult,
) {
    if code.is_space_or_tab() {
        (
            t.consume(),
            (State::Next(StateName::DefinitionDestinationBeforeWhitespace { seen_eol }), None),
        )
    } else if code.is_eol() && !seen_eol {
        (
            t.exit(
                TokenType::Whitespace,
            ).enter(TokenType::LineEnding).consume().exit(TokenType::LineEnding),
            (State::Next(StateName::DefinitionDestinationBeforeLine), None),
        )
    } else {
        destination_start_step(t.exit(TokenType::Whitespace), code)
    }
}

/// In the whitespace in front of the destination.
///
/// ```markdown
/// [a]: | b "c"
/// ```
pub fn destination_before_whitespace(
    tokenizer: &mut Tokenizer,
    code: Code,
    seen_eol: bool,
) -> (result:
    StateFnResult)
    requires
        old(tokenizer)@.awaits(StateName::DefinitionDestinationBeforeWhitespace { seen_eol }, code),
    ensures
        old(tokenizer)@.stepped(
            StateName::DefinitionDestinationBeforeWhitespace { seen_eol },
            code,
            final(tokenizer)@,
            result,
        ),
        (final(tokenizer)@, result) == destination_before_whitespace_step(
            old(tokenizer)@,
            code,
            seen_eol,
        ),
{
    if code.space_or_tab() {
        tokenizer.consume(code);
        (State::Next(StateName::DefinitionDestinationBeforeWhitespace { seen_eol }), None)
    } else if code.eol() && !seen_eol {
        tokenizer.exit(TokenType::Whitespace);
        tokenizer.enter(TokenType::LineEnding);
        tokenizer.consume(code);
        tokenizer.exit(TokenType::LineEnding);
        (State::Next(StateName::DefinitionDestinationBeforeLine), None)
    } else {
        tokenizer.exit(TokenType::Whitespace);
        destination_start(tokenizer, code)
    }
}

/// What [`destination_before_line`] does.
pub open spec fn destination_before_line_step(t: TokenizerView, code: Code) -> (
    TokenizerView,
    StateFnResult,
) {
    if code.is_space_or_tab() {
        (
            t.enter(TokenType::Whitespace).consume(),
            (
                State::Next(StateName::DefinitionDestinationBeforeWhitespace { seen_eol: true }),
                None,
            ),
        )
    } else {
        destination_start_step(t, code)
    }
}

/// At the start of the line of the destination, where it stands in a line
/// of its own.
///
/// ```markdown
/// [a]:
/// |b "c"
/// ```
pub fn destination_before_line(tokenizer: &mut Tokenizer, code: Code) -> (result: StateFnResult)
    requires
        old(tokenizer)@.awaits(StateName::DefinitionDestinationBeforeLine, code),
    ensures
        old(tokenizer)@.stepped(
            StateName::DefinitionDestinationBeforeLine,
            code,
            final(tokenizer)@,
            result,
        ),
        (final(tokenizer)@, result) == destination_before_line_step(old(tokenizer)@, code),
{
    if code.space_or_tab() {
        tokenizer.enter(TokenType::Whitespace);
        tokenizer.consume(code);
        (State::Next(StateName::DefinitionDestinationBeforeWhitespace { seen_eol: true }), None)
    } else {
        destination_start(tokenizer, code)
    }
}

/// What [`destination_start`] does.
pub open spec fn destination_start_step(t: TokenizerView, code: Code) -> (
    TokenizerView,
    StateFnResult,
) {
    if code == Code::Char('<') {
        (
            t.enter(TokenType::DefinitionDestination).enter(TokenType::DefinitionDestinationLiteral).enter(
                TokenType::DefinitionDestinationLiteralMarker,
            ).consume().exit(TokenType::DefinitionDestinationLiteralMarker),
            (State::Next(StateName::DefinitionDestinationLiteral), None),
        )
    } else if code.is_line_end()
        || code.is_space_or_tab()
        || code == Code::Char(')')
        || is_control(code) {
        (t, (State::Failure, remainder(code, false)))
    } else {
        destination_raw_step(
            t.enter(TokenType::DefinitionDestination).enter(TokenType::DefinitionDestinationRaw).enter(
                TokenType::DefinitionDestinationString,
            ),
            code,
            0,
        )
    }
}

/// In front of the destination.
///
/// ```markdown
/// [a]: |b "c"
/// ```
pub fn destination_start(tokenizer: &mut Tokenizer, code: Code) -> (result: StateFnResult)
    requires
        old(tokenizer)@.awaits(StateName::DefinitionDestinationStart, code),
    ensures
        old(tokenizer)@.stepped(
            StateName::DefinitionDestinationStart,
            code,
            final(tokenizer)@,
            result,
        ),
        (final(tokenizer)@, result) == destination_start_step(old(tokenizer)@, code),
{
    if code.is('<') {
        tokenizer.enter(TokenType::DefinitionDestination);
        tokenizer.enter(TokenType::DefinitionDestinationLiteral);
        tokenizer.enter(TokenType::DefinitionDestinationLiteralMarker);
        tokenizer.consume(code);
        tokenizer.exit(TokenType::DefinitionDestinationLiteralMarker);
        (State::Next(StateName::DefinitionDestinationLiteral), None)
    } else if code.line_end() || code.space_or_tab() || code.is(')') || control(code) {
        (State::Failure, left(code, false))
    } else {
        tokenizer.enter(TokenType::DefinitionDestination);
        tokenizer.enter(TokenType::DefinitionDestinationRaw);
        tokenizer.enter(TokenType::DefinitionDestinationString);
        destination_raw(tokenizer, code, 0)
    }
}

/// What [`destination_literal`] does.
pub open spec fn destination_literal_step(t: TokenizerView, code: Code) -> (
    TokenizerView,
    StateFnResult,
) {
    if code == Code::Char('>') {
        (
            t.enter(
                TokenType::DefinitionDestinationLiteralMarker,
            ).consume().exit(
                TokenType::DefinitionDestinationLiteralMarker,
            ).exit(TokenType::DefinitionDestinationLiteral).exit(TokenType::DefinitionDestination),
            (State::Next(StateName::DefinitionDestinationAfter), None),
        )
    } else if code.is_line_end() || code == Code::Char('<') {
        (t, (State::Failure, remainder(code, false)))
    } else if code == Code::Char('\\') {
        (
            t.enter(TokenType::DefinitionDestinationString).consume(),
            (State::Next(StateName::DefinitionDestinationLiteralEscape), None),
        )
    } else {
        (
            t.enter(TokenType::DefinitionDestinationString).consume(),
            (State::Next(StateName::DefinitionDestinationLiteralInside), None),
        )
    }
}

/// Behind the `<` of a destination.
///
/// ```markdown
/// [a]: <|b> "c"
/// ```
pub fn destination_literal(tokenizer: &mut Tokenizer, code: Code) -> (result: StateFnResult)
    requires
        old(tokenizer)@.awaits(StateName::DefinitionDestinationLiteral, code),
    ensures
        old(tokenizer)@.stepped(
            StateName::DefinitionDestinationLiteral,
            code,
            final(tokenizer)@,
            result,
        ),
        (final(tokenizer)@, result) == destination_literal_step(old(tokenizer)@, code),
{
    if code.is('>') {
        tokenizer.enter(TokenType::DefinitionDestinationLiteralMarker);
        tokenizer.consume(code);
        tokenizer.exit(TokenType::DefinitionDestinationLiteralMarker);
        tokenizer.exit(TokenType::DefinitionDestinationLiteral);
        tokenizer.exit(TokenType::DefinitionDestination);
        (State::Next(StateName::DefinitionDestinationAfter), None)
    } else if code.line_end() || code.is('<') {
        (State::Failure, left(code, false))
    } else if code.is('\\') {
        tokenizer.enter(TokenType::DefinitionDestinationString);
        tokenizer.consume(code);
        (State::Next(StateName::DefinitionDestinationLiteralEscape), None)
    } else {
        tokenizer.enter(TokenType::DefinitionDestinationString);
        tokenizer.consume(code);
        (State::Next(StateName::DefinitionDestinationLiteralInside), None)
    }
}

/// What [`destination_literal_inside`] does.
pub open spec fn destination_literal_inside_step(t: TokenizerView, code: Code) -> (
    TokenizerView,
    StateFnResult,
) {
    if code == Code::Char('>') {
        (
            t.exit(TokenType::DefinitionDestinationString).enter(
                TokenType::DefinitionDestinationLiteralMarker,
            ).consume().exit(
                TokenType::DefinitionDestinationLiteralMarker,
            ).exit(TokenType::DefinitionDestinationLiteral).exit(TokenType::DefinitionDestination),
            (State::Next(StateName::DefinitionDestinationAfter), None),
        )
    } else if code.is_line_end() || code == Code::Char('<') {
        (t, (State::Failure, remainder(code, false)))
    } else if code == Code::Char('\\') {
        (t.consume(), (State::Next(StateName::DefinitionDestinationLiteralEscape), None))
    } else {
        (t.consume(), (State::Next(StateName::DefinitionDestinationLiteralInside), None))
    }
}

/// In a destination between angle brackets.
///
/// ```markdown
/// [a]: <b|c> "d"
/// ```
pub fn destination_literal_inside(tokenizer: &mut Tokenizer, code: Code) -> (result: StateFnResult)
    requires
        old(tokenizer)@.awaits(StateName::DefinitionDestinationLiteralInside, code),
    ensures
        old(tokenizer)@.stepped(
            StateName::DefinitionDestinationLiteralInside,
            code,
            final(tokenizer)@,
            result,
        ),
        (final(tokenizer)@, result) == destination_literal_inside_step(old(tokenizer)@, code),
{
    if code.is('>') {
        tokenizer.exit(TokenType::DefinitionDestinationString);
        tokenizer.enter(TokenType::DefinitionDestinationLiteralMarker);
        tokenizer.consume(code);
        tokenizer.exit(TokenType::DefinitionDestinationLiteralMarker);
        tokenizer.exit(TokenType::DefinitionDestinationLiteral);
        tokenizer.exit(TokenType::DefinitionDestination);
        (State::Next(StateName::DefinitionDestinationAfter), None)
    } else if code.line_end() || code.is('<') {
        (State::Failure, left(code, false))
    } else if code.is('\\') {
        tokenizer.consume(code);
        (State::Next(StateName::DefinitionDestinationLiteralEscape), None)
    } else {
        tokenizer.consume(code);
        (State::Next(StateName::DefinitionDestinationLiteralInside), None)
    }
}

/// What [`destination_literal_escape`] does.
pub open spec fn destination_literal_escape_step(t: TokenizerView, code: Code) -> (
    TokenizerView,
    StateFnResult,
) {
    if code == Code::Char('<') || code == Code::Char('>') || code == Code::Char('\\') {
        (t.consume(), (State::Next(StateName::DefinitionDestinationLiteralInside), None))
    } else {
        destination_literal_inside_step(t, code)
    }
}

/// Behind a backslash in a destination between angle brackets.
///
/// ```markdown
/// [a]: <b\|>c> "d"
/// ```
pub fn destination_literal_escape(tokenizer: &mut Tokenizer, code: Code) -> (result: StateFnResult)
    requires
        old(tokenizer)@.awaits(StateName::DefinitionDestinationLiteralEscape, code),
    ensures
        old(tokenizer)@.stepped(
            StateName::DefinitionDestinationLiteralEscape,
            code,
            final(tokenizer)@,
            result,
        ),
        (final(tokenizer)@, result) == destination_literal_escape_step(old(tokenizer)@, code),
{
    if code.is('<') || code.is('>') || code.is('\\') {
        tokenizer.consume(code);
        (State::Next(StateName::DefinitionDestinationLiteralInside), None)
    } else {
        destination_literal_inside(tokenizer, code)
    }
}

/// What [`destination_raw`] does.
pub open spec fn destination_raw_step(t: TokenizerView, code: Code, depth: usize) -> (
    TokenizerView,
    StateFnResult,
) {
    if code == Code::Char('(') {
        (
            t.consume(),
            (
                State::Next(StateName::DefinitionDestinationRaw { depth: (depth + 1) as usize }),
                None,
            ),
        )
    } else if code == Code::Char(')') && depth > 0 {
        (
            t.consume(),
            (
                State::Next(StateName::DefinitionDestinationRaw { depth: (depth - 1) as usize }),
                None,
            ),
        )
    } else if (code.is_line_end() || code.is_space_or_tab() || code == Code::Char(')'))
        && depth == 0 {
        destination_after_step(
            t.exit(
                TokenType::DefinitionDestinationString,
            ).exit(TokenType::DefinitionDestinationRaw).exit(TokenType::DefinitionDestination),
            code,
        )
    } else if code.is_line_end() || code.is_space_or_tab() || is_control(code) {
        (t, (State::Failure, remainder(code, false)))
    } else if code == Code::Char('\\') {
        (t.consume(), (State::Next(StateName::DefinitionDestinationRawEscape { depth }), None))
    } else {
        (t.consume(), (State::Next(StateName::DefinitionDestinationRaw { depth }), None))
    }
}

/// In a destination without angle brackets.
///
/// ```markdown
/// [a]: b|c "d"
/// ```
pub fn destination_raw(tokenizer: &mut Tokenizer, code: Code, depth: usize) -> (result:
    StateFnResult)
    requires
        old(tokenizer)@.awaits(StateName::DefinitionDestinationRaw { depth }, code),
    ensures
        old(tokenizer)@.stepped(
            StateName::DefinitionDestinationRaw { depth },
            code,
            final(tokenizer)@,
            result,
        ),
        (final(tokenizer)@, result) == destination_raw_step(old(tokenizer)@, code, depth),
{
    if code.is('(') {
        tokenizer.consume(code);
        (State::Next(StateName::DefinitionDestinationRaw { depth: depth + 1 }), None)
    } else if code.is(')') && depth > 0 {
        tokenizer.consume(code);
        (State::Next(StateName::DefinitionDestinationRaw { depth: depth - 1 }), None)
    } else if (code.line_end() || code.space_or_tab() || code.is(')')) && depth == 0 {
        tokenizer.exit(TokenType::DefinitionDestinationString);
        tokenizer.exit(TokenType::DefinitionDestinationRaw);
        tokenizer.exit(TokenType::DefinitionDestination);
        destination_after(tokenizer, code)
    } else if code.line_end() || code.space_or_tab() || control(code) {
        (State::Failure, left(code, false))
    } else if code.is('\\') {
        tokenizer.consume(code);
        (State::Next(StateName::DefinitionDestinationRawEscape { depth }), None)
    } else {
        tokenizer.consume(code);
        (State::Next(StateName::DefinitionDestinationRaw { depth }), None)
    }
}

/// What [`destination_raw_escape`] does.
pub open spec fn destination_raw_escape_step(t: TokenizerView, code: Code, depth: usize) -> (
    TokenizerView,
    StateFnResult,
) {
    if code == Code::Char('(') || code == Code::Char(')') || code == Code::Char('\\') {
        (t.consume(), (State::Next(StateName::DefinitionDestinationRaw { depth }), None))
    } else {
        destination_raw_step(t, code, depth)
    }
}

/// Behind a backslash in a destination without angle brackets.
///
/// ```markdown
/// [a]: b\|)c "d"
/// ```
pub fn destination_raw_escape(tokenizer: &mut Tokenizer, code: Code, depth: usize) -> (result:
    StateFnResult)
    requires
        old(tokenizer)@.awaits(StateName::DefinitionDestinationRawEscape { depth }, code),
    ensures
        old(tokenizer)@.stepped(
            StateName::DefinitionDestinationRawEscape { depth },
            code,
            final(tokenizer)@,
            result,
        ),
        (final(tokenizer)@, result) == destination_raw_escape_step(old(tokenizer)@, code, depth),
{
    if code.is('(') || code.is(')') || code.is('\\') {
        tokenizer.consume(code);
        (State::Next(StateName::DefinitionDestinationRaw { depth }), None)
    } else {
        destination_raw(tokenizer, code, depth)
    }
}

/// What [`destination_after`] does.
pub open spec fn destination_after_step(t: TokenizerView, code: Code) -> (
    TokenizerView,
    StateFnResult,
) {
    title_start_step(
        t.attempt(
            AttemptKind::Attempt,
            Seq::empty(),
            State::Next(StateName::DefinitionAfter),
            State::Next(StateName::DefinitionAfter),
        ),
        code,
    )
}

/// Behind the destination: a title may follow.
///
/// ```markdown
/// [a]: b| "c"
/// ```
pub fn destination_after(tokenizer: &mut Tokenizer, code: Code) -> (result: StateFnResult)
    requires
        old(tokenizer)@.awaits(StateName::DefinitionDestinationAfter, code),
    ensures
        old(tokenizer)@.stepped(
            StateName::DefinitionDestinationAfter,
            code,
            final(tokenizer)@,
            result,
        ),
        (final(tokenizer)@, result) == destination_after_step(old(tokenizer)@, code),
{
    tokenizer.attempt(
        State::Next(StateName::DefinitionAfter),
        State::Next(StateName::DefinitionAfter),
    );
    title_start(tokenizer, code)
}

/// What [`after`] does.
pub open spec fn after_step(t: TokenizerView, code: Code) -> (TokenizerView, StateFnResult) {
    if code.is_space_or_tab() {
        (
            t.enter(TokenType::Whitespace).consume(),
            (State::Next(StateName::DefinitionAfterWhitespace), None),
        )
    } else if code.is_line_end() {
        (t.exit(TokenType::Definition), (State::Success, remainder(code, false)))
    } else {
        (t, (State::Failure, remainder(code, false)))
    }
}

/// Behind the destination and the title, if there is one: nothing but
/// whitespace can stand in the rest of the line.
///
/// ```markdown
/// [a]: b "c"|
/// ```
pub fn after(tokenizer: &mut Tokenizer, code: Code) -> (result: StateFnResult)
    requires
        old(tokenizer)@.awaits(StateName::DefinitionAfter, code),
    ensures
        old(tokenizer)@.stepped(StateName::DefinitionAfter, code, final(tokenizer)@, result),
        (final(tokenizer)@, result) == after_step(old(tokenizer)@, code),
{
    if code.space_or_tab() {
        tokenizer.enter(TokenType::Whitespace);
        tokenizer.consume(code);
        (State::Next(StateName::DefinitionAfterWhitespace), None)
    } else if code.line_end() {
        tokenizer.exit(TokenType::Definition);
        (State::Success, left(code, false))
    } else {
        (State::Failure, left(code, false))
    }
}

/// What [`after_whitespace`] does.
pub open spec fn after_whitespace_step(t: TokenizerView, code: Code) -> (
    TokenizerView,
    StateFnResult,
) {
    if code.is_space_or_tab() {
        (t.consume(), (State::Next(StateName::DefinitionAfterWhitespace), None))
    } else if code.is_line_end() {
        (
            t.exit(TokenType::Whitespace).exit(TokenType::Definition),
            (State::Success, remainder(code, false)),
        )
    } else {
        (t, (State::Failure, remainder(code, false)))
    }
}

/// In the whitespace at the end of the definition.
///
/// ```markdown
/// [a]: b "c" |
/// ```
pub fn after_whitespace(tokenizer: &mut Tokenizer, code: Code) -> (result: StateFnResult)
    requires
        old(tokenizer)@.awaits(StateName::DefinitionAfterWhitespace, code),
    ensures
        old(tokenizer)@.stepped(
            StateName::DefinitionAfterWhitespace,
            code,
            final(tokenizer)@,
            result,
        ),
        (final(tokenizer)@, result) == after_whitespace_step(old(tokenizer)@, code),
{
    if code.space_or_tab() {
        tokenizer.consume(code);
        (State::Next(StateName::DefinitionAfterWhitespace), None)
    } else if code.line_end() {
        tokenizer.exit(TokenType::Whitespace);
        tokenizer.exit(TokenType::Definition);
        (State::Success, left(code, false))
    } else {
        (State::Failure, left(code, false))
    }
}

/// What [`title_start`] does.
pub open spec fn title_start_step(t: TokenizerView, code: Code) -> (TokenizerView, StateFnResult) {
    if code.is_space_or_tab() {
        (
            t.enter(TokenType::Whitespace).consume(),
            (State::Next(StateName::DefinitionTitleBeforeWhitespace { seen_eol: false }), None),
        )
    } else if code.is_eol() {
        (
            t.enter(TokenType::LineEnding).consume().exit(TokenType::LineEnding),
            (State::Next(StateName::DefinitionTitleBeforeLine), None),
        )
    } else {
        (t, (State::Failure, remainder(code, false)))
    }
}

/// Behind the destination, in front of what may be a title: whitespace or
/// a line ending has to stand between the two.
///
/// ```markdown
/// [a]: b| "c"
/// ```
pub fn title_start(tokenizer: &mut Tokenizer, code: Code) -> (result: StateFnResult)
    requires
        old(tokenizer)@.awaits(StateName::DefinitionTitleStart, code),
    ensures
        old(tokenizer)@.stepped(StateName::DefinitionTitleStart, code, final(tokenizer)@, result),
        (final(tokenizer)@, result) == title_start_step(old(tokenizer)@, code),
{
    if code.space_or_tab() {
        tokenizer.enter(TokenType::Whitespace);
        tokenizer.consume(code);
        (State::Next(StateName::DefinitionTitleBeforeWhitespace { seen_eol: false }), None)
    } else if code.eol() {
        tokenizer.enter(TokenType::LineEnding);
        tokenizer.consume(code);
        tokenizer.exit(TokenType::LineEnding);
        (State::Next(StateName::DefinitionTitleBeforeLine), None)
    } else {
        (State::Failure, left(code, false))
    }
}

/// What [`title_before_whitespace`] does.
pub open spec fn title_before_whitespace_step(t: TokenizerView, code: Code, seen_eol: bool) -> (
    TokenizerView,
    StateFnResult,
) {
    if code.is_space_or_tab() {
        (t.consume(), (State::Next(StateName::DefinitionTitleBeforeWhitespace { seen_eol }), None))
    } else if code.is_eol() && !seen_eol {
        (
            t.exit(
                TokenType::Whitespace,
            ).enter(TokenType::LineEnding).consume().exit(TokenType::LineEnding),
            (State::Next(StateName::DefinitionTitleBeforeLine), None),
        )
    } else {
        title_begin_step(t.exit(TokenType::Whitespace), code)
    }
}

/// In the whitespace in front of what may be a title.
///
/// ```markdown
/// [a]: b | "c"
/// ```
pub fn title_before_whitespace(tokenizer: &mut Tokenizer, code: Code, seen_eol: bool) -> (result:
    StateFnResult)
    requires
        old(tokenizer)@.awaits(StateName::DefinitionTitleBeforeWhitespace { seen_eol }, code),
    ensures
        old(tokenizer)@.stepped(
            StateName::DefinitionTitleBeforeWhitespace { seen_eol },
            code,
            final(tokenizer)@,
            result,
        ),
        (final(tokenizer)@, result) == title_before_whitespace_step(
            old(tokenizer)@,
            code,
            seen_eol,
        ),
{
    if code.space_or_tab() {
        tokenizer.consume(code);
        (State::Next(StateName::DefinitionTitleBeforeWhitespace { seen_eol }), None)
    } else if code.eol() && !seen_eol {
        tokenizer.exit(TokenType::Whitespace);
        tokenizer.enter(TokenType::LineEnding);
        tokenizer.consume(code);
        tokenizer.exit(TokenType::LineEnding);
        (State::Next(StateName::DefinitionTitleBeforeLine), None)
    } else {
        tokenizer.exit(TokenType::Whitespace);
        title_begin(tokenizer, code)
    }
}

/// What [`title_before_line`] does.
pub open spec fn title_before_line_step(t: TokenizerView, code: Code) -> (
    TokenizerView,
    StateFnResult,
) {
    if code.is_space_or_tab() {
        (
            t.enter(TokenType::Whitespace).consume(),
            (State::Next(StateName::DefinitionTitleBeforeWhitespace { seen_eol: true }), None),
        )
    } else {
        title_begin_step(t, code)
    }
}

/// At the start of the line of what may be a title.
///
/// ```markdown
/// [a]: b
/// |"c"
/// ```
pub fn title_before_line(tokenizer: &mut Tokenizer, code: Code) -> (result: StateFnResult)
    requires
        old(tokenizer)@.awaits(StateName::DefinitionTitleBeforeLine, code),
    ensures
        old(tokenizer)@.stepped(
            StateName::DefinitionTitleBeforeLine,
            code,
            final(tokenizer)@,
            result,
        ),
        (final(tokenizer)@, result) == title_before_line_step(old(tokenizer)@, code),
{
    if code.space_or_tab() {
        tokenizer.enter(TokenType::Whitespace);
        tokenizer.consume(code);
        (State::Next(StateName::DefinitionTitleBeforeWhitespace { seen_eol: true }), None)
    } else {
        title_begin(tokenizer, code)
    }
}

/// What [`title_begin`] does.
pub open spec fn title_begin_step(t: TokenizerView, code: Code) -> (TokenizerView, StateFnResult) {
    match closer_of(code) {
        Some(closer) => (
            t.enter(TokenType::DefinitionTitle).enter(
                TokenType::DefinitionTitleMarker,
            ).consume().exit(
                TokenType::DefinitionTitleMarker,
            ),
            (State::Next(StateName::DefinitionTitleAtBreak { closer }), None),
        ),
        None => (t, (State::Failure, remainder(code, false))),
    }
}

/// In front of what may be a title.
///
/// ```markdown
/// [a]: b |"c"
/// ```
pub fn title_begin(tokenizer: &mut Tokenizer, code: Code) -> (result: StateFnResult)
    requires
        old(tokenizer)@.awaits(StateName::DefinitionTitleBegin, code),
    ensures
        old(tokenizer)@.stepped(StateName::DefinitionTitleBegin, code, final(tokenizer)@, result),
        (final(tokenizer)@, result) == title_begin_step(old(tokenizer)@, code),
{
    match closer(code) {
        Some(closer) => {
            tokenizer.enter(TokenType::DefinitionTitle);
            tokenizer.enter(TokenType::DefinitionTitleMarker);
            tokenizer.consume(code);
            tokenizer.exit(TokenType::DefinitionTitleMarker);
            (State::Next(StateName::DefinitionTitleAtBreak { closer }), None)
        },
        None => (State::Failure, left(code, false)),
    }
}

/// What [`title_at_break`] does.
pub open spec fn title_at_break_step(t: TokenizerView, code: Code, closer: char) -> (
    TokenizerView,
    StateFnResult,
) {
    if code == Code::Char(closer) {
        (
            t.enter(
                TokenType::DefinitionTitleMarker,
            ).consume().exit(TokenType::DefinitionTitleMarker).exit(TokenType::DefinitionTitle),
            (State::Next(StateName::DefinitionTitleAfter), None),
        )
    } else if code == Code::Eof {
        (t, (State::Failure, remainder(code, false)))
    } else if code == Code::Char('(') && closer == ')' {
        (t, (State::Failure, remainder(code, false)))
    } else if code.is_eol() {
        (
            t.enter(TokenType::LineEnding).consume().exit(TokenType::LineEnding),
            (State::Next(StateName::DefinitionTitleLineStart { closer }), None),
        )
    } else if code == Code::Char('\\') {
        (
            t.enter(TokenType::DefinitionTitleString).consume(),
            (State::Next(StateName::DefinitionTitleEscape { closer }), None),
        )
    } else {
        (
            t.enter(TokenType::DefinitionTitleString).consume(),
            (State::Next(StateName::DefinitionTitleInside { closer }), None),
        )
    }
}

/// In the title, in front of its text, a line ending or its end.
///
/// ```markdown
/// [a]: b "|c"
/// ```
pub fn title_at_break(tokenizer: &mut Tokenizer, code: Code, closer: char) -> (result:
    StateFnResult)
    requires
        old(tokenizer)@.awaits(StateName::DefinitionTitleAtBreak { closer }, code),
    ensures
        old(tokenizer)@.stepped(
            StateName::DefinitionTitleAtBreak { closer },
            code,
            final(tokenizer)@,
            result,
        ),
        (final(tokenizer)@, result) == title_at_break_step(old(tokenizer)@, code, closer),
{
    if code.is(closer) {
        tokenizer.enter(TokenType::DefinitionTitleMarker);
        tokenizer.consume(code);
        tokenizer.exit(TokenType::DefinitionTitleMarker);
        tokenizer.exit(TokenType::DefinitionTitle);
        (State::Next(StateName::DefinitionTitleAfter), None)
    } else if code.at_end() {
        (State::Failure, left(code, false))
    } else if code.is('(') && closer == ')' {
        (State::Failure, left(code, false))
    } else if code.eol() {
        tokenizer.enter(TokenType::LineEnding);
        tokenizer.consume(code);
        tokenizer.exit(TokenType::LineEnding);
        (State::Next(StateName::DefinitionTitleLineStart { closer }), None)
    } else if code.is('\\') {
        tokenizer.enter(TokenType::DefinitionTitleString);
        tokenizer.consume(code);
        (State::Next(StateName::DefinitionTitleEscape { closer }), None)
    } else {
        tokenizer.enter(TokenType::DefinitionTitleString);
        tokenizer.consume(code);
        (State::Next(StateName::DefinitionTitleInside { closer }), None)
    }
}

/// What [`title_line_start`] does.
pub open spec fn title_line_start_step(t: TokenizerView, code: Code, closer: char) -> (
    TokenizerView,
    StateFnResult,
) {
    if code.is_line_end() {
        (t, (State::Failure, remainder(code, false)))
    } else if code.is_space_or_tab() {
        (
            t.enter(TokenType::Whitespace).consume(),
            (State::Next(StateName::DefinitionTitleLineWhitespace { closer }), None),
        )
    } else {
        title_at_break_step(t, code, closer)
    }
}

/// At the start of a further line of the title: a blank line ends what
/// could have been a title.
///
/// ```markdown
/// [a]: b "c
/// |d"
/// ```
pub fn title_line_start(tokenizer: &mut Tokenizer, code: Code, closer: char) -> (result:
    StateFnResult)
    requires
        old(tokenizer)@.awaits(StateName::DefinitionTitleLineStart { closer }, code),
    ensures
        old(tokenizer)@.stepped(
            StateName::DefinitionTitleLineStart { closer },
            code,
            final(tokenizer)@,
            result,
        ),
        (final(tokenizer)@, result) == title_line_start_step(old(tokenizer)@, code, closer),
{
    if code.line_end() {
        (State::Failure, left(code, false))
    } else if code.space_or_tab() {
        tokenizer.enter(TokenType::Whitespace);
        tokenizer.consume(code);
        (State::Next(StateName::DefinitionTitleLineWhitespace { closer }), None)
    } else {
        title_at_break(tokenizer, code, closer)
    }
}

/// What [`title_line_whitespace`] does.
pub open spec fn title_line_whitespace_step(t: TokenizerView, code: Code, closer: char) -> (
    TokenizerView,
    StateFnResult,
) {
    if code.is_line_end() {
        (t, (State::Failure, remainder(code, false)))
    } else if code.is_space_or_tab() {
        (t.consume(), (State::Next(StateName::DefinitionTitleLineWhitespace { closer }), None))
    } else {
        title_at_break_step(t.exit(TokenType::Whitespace), code, closer)
    }
}

/// In the whitespace at the start of a further line of the title.
///
/// ```markdown
/// [a]: b "c
///  | d"
/// ```
pub fn title_line_whitespace(tokenizer: &mut Tokenizer, code: Code, closer: char) -> (result:
    StateFnResult)
    requires
        old(tokenizer)@.awaits(StateName::DefinitionTitleLineWhitespace { closer }, code),
    ensures
        old(tokenizer)@.stepped(
            StateName::DefinitionTitleLineWhitespace { closer },
            code,
            final(tokenizer)@,
            result,
        ),
        (final(tokenizer)@, result) == title_line_whitespace_step(old(tokenizer)@, code, closer),
{
    if code.line_end() {
        (State::Failure, left(code, false))
    } else if code.space_or_tab() {
        tokenizer.consume(code);
        (State::Next(StateName::DefinitionTitleLineWhitespace { closer }), None)
    } else {
        tokenizer.exit(TokenType::Whitespace);
        title_at_break(tokenizer, code, closer)
    }
}

/// What [`title_inside`] does.
pub open spec fn title_inside_step(t: TokenizerView, code: Code, closer: char) -> (
    TokenizerView,
    StateFnResult,
) {
    if code == Code::Char(closer)
        || code.is_line_end()
        || (code == Code::Char('(') && closer == ')') {
        title_at_break_step(t.exit(TokenType::DefinitionTitleString), code, closer)
    } else if code == Code::Char('\\') {
        (t.consume(), (State::Next(StateName::DefinitionTitleEscape { closer }), None))
    } else {
        (t.consume(), (State::Next(StateName::DefinitionTitleInside { closer }), None))
    }
}

/// In the text of the title.
///
/// ```markdown
/// [a]: b "c|d"
/// ```
pub fn title_inside(tokenizer: &mut Tokenizer, code: Code, closer: char) -> (result: StateFnResult)
    requires
        old(tokenizer)@.awaits(StateName::DefinitionTitleInside { closer }, code),
    ensures
        old(tokenizer)@.stepped(
            StateName::DefinitionTitleInside { closer },
            code,
            final(tokenizer)@,
            result,
        ),
        (final(tokenizer)@, result) == title_inside_step(old(tokenizer)@, code, closer),
{
    if code.is(closer) || code.line_end() || (code.is('(') && closer == ')') {
        tokenizer.exit(TokenType::DefinitionTitleString);
        title_at_break(tokenizer, code, closer)
    } else if code.is('\\') {
        tokenizer.consume(code);
        (State::Next(StateName::DefinitionTitleEscape { closer }), None)
    } else {
        tokenizer.consume(code);
        (State::Next(StateName::DefinitionTitleInside { closer }), None)
    }
}

/// What [`title_escape`] does.
pub open spec fn title_escape_step(t: TokenizerView, code: Code, closer: char) -> (
    TokenizerView,
    StateFnResult,
) {
    if code == Code::Char(closer) || code == Code::Char('(') || code == Code::Char('\\') {
        (t.consume(), (State::Next(StateName::DefinitionTitleInside { closer }), None))
    } else {
        title_inside_step(t, code, closer)
    }
}

/// Behind a backslash in the title.
///
/// ```markdown
/// [a]: b "c\|"d"
/// ```
pub fn title_escape(tokenizer: &mut Tokenizer, code: Code, closer: char) -> (result: StateFnResult)
    requires
        old(tokenizer)@.awaits(StateName::DefinitionTitleEscape { closer }, code),
    ensures
        old(tokenizer)@.stepped(
            StateName::DefinitionTitleEscape { closer },
            code,
            final(tokenizer)@,
            result,
        ),
        (final(tokenizer)@, result) == title_escape_step(old(tokenizer)@, code, closer),
{
    if code.is(closer) || code.is('(') || code.is('\\') {
        tokenizer.consume(code);
        (State::Next(StateName::DefinitionTitleInside { closer }), None)
    } else {
        title_inside(tokenizer, code, closer)
    }
}

/// What [`title_after`] does.
pub open spec fn title_after_step(t: TokenizerView, code: Code) -> (TokenizerView, StateFnResult) {
    if code.is_space_or_tab() {
        (
            t.enter(TokenType::Whitespace).consume(),
            (State::Next(StateName::DefinitionTitleAfterWhitespace), None),
        )
    } else if code.is_line_end() {
        (t, (State::Success, remainder(code, false)))
    } else {
        (t, (State::Failure, remainder(code, false)))
    }
}

/// Behind the title: nothing but whitespace can stand in the rest of the
/// line.
///
/// ```markdown
/// [a]: b "c"|
/// ```
pub fn title_after(tokenizer: &mut Tokenizer, code: Code) -> (result: StateFnResult)
    requires
        old(tokenizer)@.awaits(StateName::DefinitionTitleAfter, code),
    ensures
        old(tokenizer)@.stepped(StateName::DefinitionTitleAfter, code, final(tokenizer)@, result),
        (final(tokenizer)@, result) == title_after_step(old(tokenizer)@, code),
{
    if code.space_or_tab() {
        tokenizer.enter(TokenType::Whitespace);
        tokenizer.consume(code);
        (State::Next(StateName::DefinitionTitleAfterWhitespace), None)
    } else if code.line_end() {
        (State::Success, left(code, false))
    } else {
        (State::Failure, left(code, false))
    }
}

/// What [`title_after_whitespace`] does.
pub open spec fn title_after_whitespace_step(t: TokenizerView, code: Code) -> (
    TokenizerView,
    StateFnResult,
) {
    if code.is_space_or_tab() {
        (t.consume(), (State::Next(StateName::DefinitionTitleAfterWhitespace), None))
    } else if code.is_line_end() {
        (t.exit(TokenType::Whitespace), (State::Success, remainder(code, false)))
    } else {
        (t, (State::Failure, remainder(code, false)))
    }
}

/// In the whitespace behind the title.
///
/// ```markdown
/// [a]: b "c" |
/// ```
pub fn title_after_whitespace(tokenizer: &mut Tokenizer, code: Code) -> (result: StateFnResult)
    requires
        old(tokenizer)@.awaits(StateName::DefinitionTitleAfterWhitespace, code),
    ensures
        old(tokenizer)@.stepped(
            StateName::DefinitionTitleAfterWhitespace,
            code,
            final(tokenizer)@,
            result,
        ),
        (final(tokenizer)@, result) == title_after_whitespace_step(old(tokenizer)@, code),
{
    if code.space_or_tab() {
        tokenizer.consume(code);
        (State::Next(StateName::DefinitionTitleAfterWhitespace), None)
    } else if code.line_end() {
        tokenizer.exit(TokenType::Whitespace);
        (State::Success, left(code, false))
    } else {
        (State::Failure, left(code, false))
    }
}

/// What the state function of `name` does, for the states of this file.
pub open spec fn step(name: StateName, t: TokenizerView, code: Code) -> (
    TokenizerView,
    StateFnResult,
) {
    match name {
        StateName::DefinitionStart => start_step(t, code),
        StateName::DefinitionLabelAtBreak { size, data } =>
            label_at_break_step(t, code, size, data),
        StateName::DefinitionLabelLineStart { size, data } =>
            label_line_start_step(t, code, size, data),
        StateName::DefinitionLabelLineWhitespace { size, data } =>
            label_line_whitespace_step(t, code, size, data),
        StateName::DefinitionLabelInside { size, data } => label_inside_step(t, code, size, data),
        StateName::DefinitionLabelEscape { size, data } => label_escape_step(t, code, size, data),
        StateName::DefinitionLabelAfter => label_after_step(t, code),
        StateName::DefinitionMarkerAfter => marker_after_step(t, code),
        StateName::DefinitionDestinationBeforeWhitespace { seen_eol } =>
            destination_before_whitespace_step(t, code, seen_eol),
        StateName::DefinitionDestinationBeforeLine => destination_before_line_step(t, code),
        StateName::DefinitionDestinationStart => destination_start_step(t, code),
        StateName::DefinitionDestinationLiteral => destination_literal_step(t, code),
        StateName::DefinitionDestinationLiteralInside => destination_literal_inside_step(t, code),
        StateName::DefinitionDestinationLiteralEscape => destination_literal_escape_step(t, code),
        StateName::DefinitionDestinationRaw { depth } => destination_raw_step(t, code, depth),
        StateName::DefinitionDestinationRawEscape { depth } =>
            destination_raw_escape_step(t, code, depth),
        StateName::DefinitionDestinationAfter => destination_after_step(t, code),
        StateName::DefinitionAfter => after_step(t, code),
        StateName::DefinitionAfterWhitespace => after_whitespace_step(t, code),
        StateName::DefinitionTitleStart => title_start_step(t, code),
        StateName::DefinitionTitleBeforeWhitespace { seen_eol } =>
            title_before_whitespace_step(t, code, seen_eol),
        StateName::DefinitionTitleBeforeLine => title_before_line_step(t, code),
        StateName::DefinitionTitleBegin => title_begin_step(t, code),
        StateName::DefinitionTitleAtBreak { closer } => title_at_break_step(t, code, closer),
        StateName::DefinitionTitleLineStart { closer } => title_line_start_step(t, code, closer),
        StateName::DefinitionTitleLineWhitespace { closer } =>
            title_line_whitespace_step(t, code, closer),
        StateName::DefinitionTitleInside { closer } => title_inside_step(t, code, closer),
        StateName::DefinitionTitleEscape { closer } => title_escape_step(t, code, closer),
        StateName::DefinitionTitleAfter => title_after_step(t, code),
        StateName::DefinitionTitleAfterWhitespace => title_after_whitespace_step(t, code),
        _ => (t, (State::Failure, None)),
    }
}

/// Run the state function of `name`, which is a state of this file.
pub fn call(tokenizer: &mut Tokenizer, name: StateName, code: Code) -> (result: StateFnResult)
    requires
        old(tokenizer)@.awaits(name, code),
        name.family() == Family::Definition,
    ensures
        old(tokenizer)@.stepped(name, code, final(tokenizer)@, result),
        (final(tokenizer)@, result) == step(name, old(tokenizer)@, code),
{
    match name {
        StateName::DefinitionStart => start(tokenizer, code),
        StateName::DefinitionLabelAtBreak { size, data } =>
            label_at_break(tokenizer, code, size, data),
        StateName::DefinitionLabelLineStart { size, data } =>
            label_line_start(tokenizer, code, size, data),
        StateName::DefinitionLabelLineWhitespace { size, data } =>
            label_line_whitespace(tokenizer, code, size, data),
        StateName::DefinitionLabelInside { size, data } =>
            label_inside(tokenizer, code, size, data),
        StateName::DefinitionLabelEscape { size, data } =>
            label_escape(tokenizer, code, size, data),
        StateName::DefinitionLabelAfter => label_after(tokenizer, code),
        StateName::DefinitionMarkerAfter => marker_after(tokenizer, code),
        StateName::DefinitionDestinationBeforeWhitespace { seen_eol } =>
            destination_before_whitespace(tokenizer, code, seen_eol),
        StateName::DefinitionDestinationBeforeLine => destination_before_line(tokenizer, code),
        StateName::DefinitionDestinationStart => destination_start(tokenizer, code),
        StateName::DefinitionDestinationLiteral => destination_literal(tokenizer, code),
        StateName::DefinitionDestinationLiteralInside =>
            destination_literal_inside(tokenizer, code),
        StateName::DefinitionDestinationLiteralEscape =>
            destination_literal_escape(tokenizer, code),
        StateName::DefinitionDestinationRaw { depth } => destination_raw(tokenizer, code, depth),
        StateName::DefinitionDestinationRawEscape { depth } =>
            destination_raw_escape(tokenizer, code, depth),
        StateName::DefinitionDestinationAfter => destination_after(tokenizer, code),
        StateName::DefinitionAfter => after(tokenizer, code),
        StateName::DefinitionAfterWhitespace => after_whitespace(tokenizer, code),
        StateName::DefinitionTitleStart => title_start(tokenizer, code),
        StateName::DefinitionTitleBeforeWhitespace { seen_eol } =>
            title_before_whitespace(tokenizer, code, seen_eol),
        StateName::DefinitionTitleBeforeLine => title_before_line(tokenizer, code),
        StateName::DefinitionTitleBegin => title_begin(tokenizer, code),
        StateName::DefinitionTitleAtBreak { closer } => title_at_break(tokenizer, code, closer),
        StateName::DefinitionTitleLineStart { closer } => title_line_start(tokenizer, code, closer),
        StateName::DefinitionTitleLineWhitespace { closer } =>
            title_line_whitespace(tokenizer, code, closer),
        StateName::DefinitionTitleInside { closer } => title_inside(tokenizer, code, closer),
        StateName::DefinitionTitleEscape { closer } => title_escape(tokenizer, code, closer),
        StateName::DefinitionTitleAfter => title_after(tokenizer, code),
        StateName::DefinitionTitleAfterWhitespace => title_after_whitespace(tokenizer, code),
        _ => (State::Failure, None),
    }
}

// ----- What the construct reads as a destination -----

/// Whether a backslash that escapes stands in front of `k`, in a part
/// that begins at `start`.
pub open spec fn escaping(codes: Seq<Code>, start: int, k: int) -> bool
    decreases k - start,
{
    if k <= start {
        false
    } else {
        codes[k - 1] == Code::Char('\\') && !escaping(codes, start, k - 1)
    }
}

/// Whether `code` can stand in a destination without angle brackets,
/// behind a backslash if `escaped`: it is a character, no whitespace, no
/// line ending and no control character, and a parenthesis only behind a
/// backslash.
pub open spec fn raw_code(code: Code, escaped: bool) -> bool {
    &&& code is Char
    &&& !code.is_line_end()
    &&& !code.is_space_or_tab()
    &&& !is_control(code)
    &&& code == Code::Char('(') || code == Code::Char(')') ==> escaped
}

/// Whether the codes from `start` up to `k` can stand in a destination
/// without angle brackets.
pub open spec fn raw_fits(codes: Seq<Code>, start: int, k: int) -> bool
    decreases k - start,
{
    if k <= start {
        true
    } else {
        raw_fits(codes, start, k - 1) && raw_code(
            codes[k - 1],
            escaping(codes, start, k - 1),
        )
    }
}

/// Whether the tokenizer `t` stands behind the code in front of `k`, in a
/// destination without angle brackets that began at `start`, with the
/// attempts of `first` and the spans of the destination open.
pub open spec fn in_raw(
    first: TokenizerView,
    t: TokenizerView,
    state: State,
    codes: Seq<Code>,
    start: int,
    k: int,
) -> bool {
    let opened = first.enter(TokenType::DefinitionDestination).enter(
        TokenType::DefinitionDestinationRaw,
    ).enter(TokenType::DefinitionDestinationString);
    &&& t.index == first.start_index + k
    &&& t.start_index == first.start_index
    &&& t.consumed
    &&& t.attempts == first.attempts
    &&& t.stack == opened.stack
    &&& t.events == opened.events
    &&& state == if escaping(codes, start, k) {
        State::Next(StateName::DefinitionDestinationRawEscape { depth: 0 })
    } else {
        State::Next(StateName::DefinitionDestinationRaw { depth: 0 })
    }
}

/// One move of the machine in a definition.
pub proof fn lemma_move(
    first: TokenizerView,
    begin: State,
    codes: Seq<Code>,
    t: TokenizerView,
    name: StateName,
)
    requires
        first.reaches(begin, codes, t, State::Next(name)),
        name.family() == Family::Definition,
    ensures
        ({
            let fed = if t.consumed {
                t.expect(crate::machine::code_at(codes, t.index - t.start_index))
            } else {
                t
            };
            let (after, result) = step(name, fed, fed.current);
            first.reaches(begin, codes, after, result.0)
        }),
{
    let fed = if t.consumed {
        t.expect(crate::machine::code_at(codes, t.index - t.start_index))
    } else {
        t
    };
    first.lemma_reaches_next(begin, codes, t, State::Next(name));
    assert(crate::machine::step(name, fed, fed.current) == step(name, fed, fed.current));
}

/// The construct reads a destination without angle brackets to its end:
/// begun in front of codes that can stand in such a destination, of which
/// the first is no angle bracket, the machine passes over them one by one,
/// in the destination, and writes no event but those that open it.
pub proof fn lemma_raw_read(first: TokenizerView, codes: Seq<Code>, start: int, k: int)
    requires
        first.start_index + codes.len() <= usize::MAX,
        first.index == first.start_index + start,
        first.current == codes[start],
        !first.consumed,
        0 <= start < k <= codes.len(),
        codes[start] != Code::Char('<'),
        raw_fits(codes, start, k),
    ensures
        exists|t: TokenizerView, state: State|
            #[trigger] first.reaches(
                State::Next(StateName::DefinitionDestinationStart),
                codes,
                t,
                state,
            ) && in_raw(first, t, state, codes, start, k),
    decreases k - start,
{
    let begin = State::Next(StateName::DefinitionDestinationStart);
    if k == start + 1 {
        assert(raw_fits(codes, start, start));
        assert(!escaping(codes, start, start));
        assert(raw_code(codes[start], false));
        first.lemma_reaches_first(begin, codes);
        lemma_move(first, begin, codes, first, StateName::DefinitionDestinationStart);
        let (t, result) = step(StateName::DefinitionDestinationStart, first, first.current);
        assert(first.reaches(begin, codes, t, result.0));
        assert(in_raw(first, t, result.0, codes, start, k));
    } else {
        lemma_raw_read(first, codes, start, k - 1);
        let (t, state) = choose|t: TokenizerView, state: State|
            #[trigger] first.reaches(begin, codes, t, state) && in_raw(
                first,
                t,
                state,
                codes,
                start,
                k - 1,
            );
        let code = codes[k - 1];
        let escaped = escaping(codes, start, k - 1);
        assert(raw_code(code, escaped));
        assert(crate::machine::code_at(codes, t.index - t.start_index) == code);
        let name = if escaped {
            StateName::DefinitionDestinationRawEscape { depth: 0 }
        } else {
            StateName::DefinitionDestinationRaw { depth: 0 }
        };
        lemma_move(first, begin, codes, t, name);
        let (next, result) = step(name, t.expect(code), code);
        assert(first.reaches(begin, codes, next, result.0));
        assert(in_raw(first, next, result.0, codes, start, k));
    }
}

/// Behind a destination without angle brackets, a line ending or
/// whitespace closes the spans of the destination where it stands, and the
/// machine goes on behind the destination.
pub proof fn lemma_raw_ends(t: TokenizerView, code: Code, escaped: bool)
    requires
        code.is_line_end() || code.is_space_or_tab(),
    ensures
        step(
            if escaped {
                StateName::DefinitionDestinationRawEscape { depth: 0 }
            } else {
                StateName::DefinitionDestinationRaw { depth: 0 }
            },
            t,
            code,
        ) == destination_after_step(
            t.exit(
                TokenType::DefinitionDestinationString,
            ).exit(TokenType::DefinitionDestinationRaw).exit(TokenType::DefinitionDestination),
            code,
        ),
{
}

/// Whether `code` can stand in a destination between angle brackets,
/// behind a backslash if `escaped`: it is no line ending, and an angle
/// bracket only behind a backslash.
pub open spec fn literal_code(code: Code, escaped: bool) -> bool {
    &&& !code.is_line_end()
    &&& code == Code::Char('<') || code == Code::Char('>') ==> escaped
}

/// Whether the codes from `start` up to `k` can stand in a destination
/// between angle brackets.
pub open spec fn literal_fits(codes: Seq<Code>, start: int, k: int) -> bool
    decreases k - start,
{
    if k <= start {
        true
    } else {
        literal_fits(codes, start, k - 1) && literal_code(
            codes[k - 1],
            escaping(codes, start, k - 1),
        )
    }
}

/// Whether the tokenizer `t` stands behind the code in front of `k`, in a
/// destination between angle brackets whose text begins at `start`, behind
/// the bracket that opens it, with the attempts of `first` and the spans of
/// the destination open.
pub open spec fn in_literal(
    first: TokenizerView,
    t: TokenizerView,
    state: State,
    codes: Seq<Code>,
    start: int,
    k: int,
) -> bool {
    let opened = first.stack.push(TokenType::DefinitionDestination).push(
        TokenType::DefinitionDestinationLiteral,
    );
    &&& t.index == first.start_index + k
    &&& t.start_index == first.start_index
    &&& t.consumed
    &&& t.attempts == first.attempts
    &&& if k == start {
        t.stack == opened && state == State::Next(StateName::DefinitionDestinationLiteral)
    } else {
        &&& t.stack == opened.push(TokenType::DefinitionDestinationString)
        &&& state == if escaping(codes, start, k) {
            State::Next(StateName::DefinitionDestinationLiteralEscape)
        } else {
            State::Next(StateName::DefinitionDestinationLiteralInside)
        }
    }
}

/// The construct passes over a destination between angle brackets: begun
/// at the bracket that opens it, in front of codes that can stand in such a
/// destination, the machine passes over them one by one, in the destination.
pub proof fn lemma_literal_passed(first: TokenizerView, codes: Seq<Code>, start: int, k: int)
    requires
        1 <= start <= k <= codes.len(),
        first.start_index + codes.len() <= usize::MAX,
        first.index == first.start_index + start - 1,
        first.current == Code::Char('<'),
        codes[start - 1] == Code::Char('<'),
        !first.consumed,
        literal_fits(codes, start, k),
    ensures
        exists|t: TokenizerView, state: State|
            #[trigger] first.reaches(
                State::Next(StateName::DefinitionDestinationStart),
                codes,
                t,
                state,
            ) && in_literal(first, t, state, codes, start, k),
    decreases k - start,
{
    let begin = State::Next(StateName::DefinitionDestinationStart);
    if k == start {
        first.lemma_reaches_first(begin, codes);
        lemma_move(first, begin, codes, first, StateName::DefinitionDestinationStart);
        let (t, result) = step(StateName::DefinitionDestinationStart, first, first.current);
        assert(first.reaches(begin, codes, t, result.0));
        assert(t.stack =~= first.stack.push(TokenType::DefinitionDestination).push(
            TokenType::DefinitionDestinationLiteral,
        ));
        assert(in_literal(first, t, result.0, codes, start, k));
    } else {
        lemma_literal_passed(first, codes, start, k - 1);
        let (t, state) = choose|t: TokenizerView, state: State|
            #[trigger] first.reaches(begin, codes, t, state) && in_literal(
                first,
                t,
                state,
                codes,
                start,
                k - 1,
            );
        let code = codes[k - 1];
        let escaped = escaping(codes, start, k - 1);
        assert(literal_code(code, escaped));
        assert(crate::machine::code_at(codes, t.index - t.start_index) == code);
        let name = if k - 1 == start {
            StateName::DefinitionDestinationLiteral
        } else if escaped {
            StateName::DefinitionDestinationLiteralEscape
        } else {
            StateName::DefinitionDestinationLiteralInside
        };
        if k - 1 == start {
            assert(!escaped);
        }
        lemma_move(first, begin, codes, t, name);
        let (next, result) = step(name, t.expect(code), code);
        assert(first.reaches(begin, codes, next, result.0));
        assert(in_literal(first, next, result.0, codes, start, k));
    }
}

/// Whether the tokenizer `t` stands behind a destination between angle
/// brackets that ends in front of `end`, with the attempts of `first` and
/// every span of the destination closed.
pub open spec fn behind_literal(
    first: TokenizerView,
    t: TokenizerView,
    state: State,
    end: int,
) -> bool {
    &&& t.index == first.start_index + end + 1
    &&& t.start_index == first.start_index
    &&& t.consumed
    &&& t.attempts == first.attempts
    &&& t.stack == first.stack
    &&& state == State::Next(StateName::DefinitionDestinationAfter)
}

/// The construct reads a destination between angle brackets to its end:
/// begun at the bracket that opens it, in front of codes that can stand in
/// such a destination, with no backslash that escapes at their end and the
/// closing bracket behind them, the machine closes the destination behind
/// that bracket.
pub proof fn lemma_literal_read(first: TokenizerView, codes: Seq<Code>, start: int, end: int)
    requires
        1 <= start <= end < codes.len(),
        first.start_index + codes.len() < usize::MAX,
        first.index == first.start_index + start - 1,
        first.current == Code::Char('<'),
        codes[start - 1] == Code::Char('<'),
        !first.consumed,
        literal_fits(codes, start, end),
        !escaping(codes, start, end),
        codes[end] == Code::Char('>'),
    ensures
        exists|t: TokenizerView, state: State|
            #[trigger] first.reaches(
                State::Next(StateName::DefinitionDestinationStart),
                codes,
                t,
                state,
            ) && behind_literal(first, t, state, end),
{
    let begin = State::Next(StateName::DefinitionDestinationStart);
    lemma_literal_passed(first, codes, start, end);
    let (t, state) = choose|t: TokenizerView, state: State|
        #[trigger] first.reaches(begin, codes, t, state) && in_literal(
            first,
            t,
            state,
            codes,
            start,
            end,
        );
    let code = codes[end];
    assert(crate::machine::code_at(codes, t.index - t.start_index) == code);
    let name = if end == start {
        StateName::DefinitionDestinationLiteral
    } else {
        StateName::DefinitionDestinationLiteralInside
    };
    lemma_move(first, begin, codes, t, name);
    let (next, result) = step(name, t.expect(code), code);
    assert(first.reaches(begin, codes, next, result.0));
    assert(next.stack =~= first.stack);
    assert(behind_literal(first, next, result.0, end));
}

// ----- What the construct reads as a label -----

/// Whether a line begins in front of `k`, in a part that begins at
/// `start`: a line ending stands there, with nothing but whitespace behind
/// it.
pub open spec fn line_begun(codes: Seq<Code>, start: int, k: int) -> bool
    decreases k - start,
{
    if k <= start {
        false
    } else {
        codes[k - 1].is_eol() || (codes[k - 1].is_space_or_tab() && line_begun(
            codes,
            start,
            k - 1,
        ))
    }
}

/// Whether the label that begins at `start` is seen to hold more than
/// whitespace in front of `k`: a code that is no whitespace and no line
/// ending stands there, or one behind a backslash.
pub open spec fn label_data(codes: Seq<Code>, start: int, k: int) -> bool
    decreases k - start,
{
    if k <= start {
        false
    } else if escaping(codes, start, k) {
        label_data(codes, start, k - 1)
    } else if escaping(codes, start, k - 1) {
        true
    } else {
        label_data(codes, start, k - 1) || !(codes[k - 1].is_space_or_tab()
            || codes[k - 1].is_eol())
    }
}

/// Whether the codes from `start` up to `k` can stand in a label: none is
/// the end of the input, a bracket stands only behind a backslash, no line
/// is blank, and there are no more codes than a label can have.
pub open spec fn label_fits(codes: Seq<Code>, start: int, k: int) -> bool
    decreases k - start,
{
    if k <= start {
        true
    } else {
        let code = codes[k - 1];
        &&& label_fits(codes, start, k - 1)
        &&& k - start <= LINK_REFERENCE_SIZE_MAX
        &&& code != Code::Eof
        &&& code == Code::Char('[') || code == Code::Char(']') ==> escaping(codes, start, k - 1)
        &&& code.is_eol() ==> !line_begun(codes, start, k - 1)
    }
}

/// Whether the tokenizer `t` stands behind the code in front of `k`, in a
/// label that begins at `start`, behind the bracket that opens it, with the
/// attempts of `first`.
pub open spec fn in_label(
    first: TokenizerView,
    t: TokenizerView,
    state: State,
    codes: Seq<Code>,
    start: int,
    k: int,
) -> bool {
    let base = first.stack.push(TokenType::Definition).push(TokenType::DefinitionLabel);
    let size = (k - start) as usize;
    let data = label_data(codes, start, k);
    &&& t.index == first.start_index + k
    &&& t.start_index == first.start_index
    &&& t.consumed
    &&& t.attempts == first.attempts
    &&& if k == start {
        t.stack == base && state == State::Next(
            StateName::DefinitionLabelAtBreak { size: 0, data: false },
        )
    } else if escaping(codes, start, k) {
        t.stack == base.push(TokenType::DefinitionLabelData) && state == State::Next(
            StateName::DefinitionLabelEscape { size, data },
        )
    } else if codes[k - 1].is_eol() {
        t.stack == base && state == State::Next(
            StateName::DefinitionLabelLineStart { size, data },
        )
    } else if line_begun(codes, start, k) {
        t.stack == base.push(TokenType::Whitespace) && state == State::Next(
            StateName::DefinitionLabelLineWhitespace { size, data },
        )
    } else {
        t.stack == base.push(TokenType::DefinitionLabelData) && state == State::Next(
            StateName::DefinitionLabelInside { size, data },
        )
    }
}

/// The construct passes over a label: begun at the bracket that opens
/// it, in front of codes that can stand in a label, the machine passes over
/// them one by one, in the label.
pub proof fn lemma_label_passed(first: TokenizerView, codes: Seq<Code>, start: int, k: int)
    requires
        1 <= start <= k <= codes.len(),
        first.start_index + codes.len() <= usize::MAX,
        first.index == first.start_index + start - 1,
        first.current == Code::Char('['),
        codes[start - 1] == Code::Char('['),
        !first.consumed,
        label_fits(codes, start, k),
    ensures
        exists|t: TokenizerView, state: State|
            #[trigger] first.reaches(State::Next(StateName::DefinitionStart), codes, t, state)
                && in_label(first, t, state, codes, start, k),
    decreases k - start,
{
    let begin = State::Next(StateName::DefinitionStart);
    let base = first.stack.push(TokenType::Definition).push(TokenType::DefinitionLabel);
    if k == start {
        first.lemma_reaches_first(begin, codes);
        lemma_move(first, begin, codes, first, StateName::DefinitionStart);
        let (t, result) = step(StateName::DefinitionStart, first, first.current);
        assert(first.reaches(begin, codes, t, result.0));
        assert(t.stack =~= base);
        assert(in_label(first, t, result.0, codes, start, k));
    } else {
        lemma_label_passed(first, codes, start, k - 1);
        let (t, state) = choose|t: TokenizerView, state: State|
            #[trigger] first.reaches(begin, codes, t, state) && in_label(
                first,
                t,
                state,
                codes,
                start,
                k - 1,
            );
        let code = codes[k - 1];
        let size = (k - 1 - start) as usize;
        let data = label_data(codes, start, k - 1);
        assert(crate::machine::code_at(codes, t.index - t.start_index) == code);
        assert(line_begun(codes, start, k) == (code.is_eol() || (code.is_space_or_tab()
            && line_begun(codes, start, k - 1))));
        assert(escaping(codes, start, k) == (code == Code::Char('\\') && !escaping(
            codes,
            start,
            k - 1,
        )));
        if k - 1 == start {
            let name = StateName::DefinitionLabelAtBreak { size: 0, data: false };
            assert(!line_begun(codes, start, k - 1));
            assert(!escaping(codes, start, k - 1));
            assert(!label_data(codes, start, k - 1));
            lemma_move(first, begin, codes, t, name);
            let (next, result) = step(name, t.expect(code), code);
            assert(first.reaches(begin, codes, next, result.0));
            assert(base.push(TokenType::LineEnding).drop_last() =~= base);
            assert(base.push(TokenType::DefinitionLabelData).drop_last() =~= base);
            assert(base.push(TokenType::Whitespace).drop_last() =~= base);
            assert(base.push(TokenType::LineEnding).drop_last() =~= base);
            assert(base.push(TokenType::DefinitionLabelData).drop_last() =~= base);
            assert(base.push(TokenType::Whitespace).drop_last() =~= base);
            assert(next.stack =~= base || next.stack =~= base.push(TokenType::Whitespace)
                || next.stack =~= base.push(TokenType::DefinitionLabelData));
            assert(in_label(first, next, result.0, codes, start, k));
        } else if escaping(codes, start, k - 1) {
            let name = StateName::DefinitionLabelEscape { size, data };
            assert(codes[k - 2] == Code::Char('\\'));
            assert(!line_begun(codes, start, k - 1));
            lemma_move(first, begin, codes, t, name);
            let (next, result) = step(name, t.expect(code), code);
            assert(first.reaches(begin, codes, next, result.0));
            assert(base.push(TokenType::LineEnding).drop_last() =~= base);
            assert(base.push(TokenType::DefinitionLabelData).drop_last() =~= base);
            assert(base.push(TokenType::Whitespace).drop_last() =~= base);
            assert(base.push(TokenType::LineEnding).drop_last() =~= base);
            assert(base.push(TokenType::DefinitionLabelData).drop_last() =~= base);
            assert(base.push(TokenType::Whitespace).drop_last() =~= base);
            assert(next.stack =~= base || next.stack =~= base.push(TokenType::Whitespace)
                || next.stack =~= base.push(TokenType::DefinitionLabelData));
            assert(in_label(first, next, result.0, codes, start, k));
        } else if codes[k - 2].is_eol() {
            let name = StateName::DefinitionLabelLineStart { size, data };
            assert(line_begun(codes, start, k - 1));
            lemma_move(first, begin, codes, t, name);
            let (next, result) = step(name, t.expect(code), code);
            assert(first.reaches(begin, codes, next, result.0));
            assert(base.push(TokenType::LineEnding).drop_last() =~= base);
            assert(base.push(TokenType::DefinitionLabelData).drop_last() =~= base);
            assert(base.push(TokenType::Whitespace).drop_last() =~= base);
            assert(next.stack =~= base || next.stack =~= base.push(TokenType::Whitespace)
                || next.stack =~= base.push(TokenType::DefinitionLabelData));
            assert(in_label(first, next, result.0, codes, start, k));
        } else if line_begun(codes, start, k - 1) {
            let name = StateName::DefinitionLabelLineWhitespace { size, data };
            lemma_move(first, begin, codes, t, name);
            let (next, result) = step(name, t.expect(code), code);
            assert(first.reaches(begin, codes, next, result.0));
            assert(base.push(TokenType::LineEnding).drop_last() =~= base);
            assert(base.push(TokenType::DefinitionLabelData).drop_last() =~= base);
            assert(base.push(TokenType::Whitespace).drop_last() =~= base);
            assert(next.stack =~= base || next.stack =~= base.push(TokenType::Whitespace)
                || next.stack =~= base.push(TokenType::DefinitionLabelData));
            assert(in_label(first, next, result.0, codes, start, k));
        } else {
            let name = StateName::DefinitionLabelInside { size, data };
            lemma_move(first, begin, codes, t, name);
            let (next, result) = step(name, t.expect(code), code);
            assert(first.reaches(begin, codes, next, result.0));
            assert(base.push(TokenType::LineEnding).drop_last() =~= base);
            assert(base.push(TokenType::DefinitionLabelData).drop_last() =~= base);
            assert(base.push(TokenType::Whitespace).drop_last() =~= base);
            assert(base.push(TokenType::LineEnding).drop_last() =~= base);
            assert(base.push(TokenType::DefinitionLabelData).drop_last() =~= base);
            assert(base.push(TokenType::Whitespace).drop_last() =~= base);
            assert(next.stack =~= base || next.stack =~= base.push(TokenType::Whitespace)
                || next.stack =~= base.push(TokenType::DefinitionLabelData));
            assert(in_label(first, next, result.0, codes, start, k));
        }
    }
}

/// Whether the tokenizer `t` stands behind a label that ends in front of
/// `end`, behind the bracket that closes it, with the attempts of `first`
/// and the definition open.
pub open spec fn behind_label(
    first: TokenizerView,
    t: TokenizerView,
    state: State,
    end: int,
) -> bool {
    &&& t.index == first.start_index + end + 1
    &&& t.start_index == first.start_index
    &&& t.consumed
    &&& t.attempts == first.attempts
    &&& t.stack == first.stack.push(TokenType::Definition)
    &&& state == State::Next(StateName::DefinitionLabelAfter)
}

/// The construct reads a label to its end: begun at the bracket that
/// opens it, in front of codes that can stand in a label and hold more than
/// whitespace, with no backslash that escapes at their end and the closing
/// bracket behind them, the machine closes the label behind that bracket.
pub proof fn lemma_label_read(first: TokenizerView, codes: Seq<Code>, start: int, end: int)
    requires
        1 <= start <= end < codes.len(),
        first.start_index + codes.len() < usize::MAX,
        first.index == first.start_index + start - 1,
        first.current == Code::Char('['),
        codes[start - 1] == Code::Char('['),
        !first.consumed,
        label_fits(codes, start, end),
        label_data(codes, start, end),
        !escaping(codes, start, end),
        codes[end] == Code::Char(']'),
    ensures
        exists|t: TokenizerView, state: State|
            #[trigger] first.reaches(State::Next(StateName::DefinitionStart), codes, t, state)
                && behind_label(first, t, state, end),
{
    let begin = State::Next(StateName::DefinitionStart);
    lemma_label_passed(first, codes, start, end);
    let (t, state) = choose|t: TokenizerView, state: State|
        #[trigger] first.reaches(begin, codes, t, state) && in_label(
            first,
            t,
            state,
            codes,
            start,
            end,
        );
    let code = codes[end];
    let size = (end - start) as usize;
    assert(end > start);
    assert(crate::machine::code_at(codes, t.index - t.start_index) == code);
    let name = if codes[end - 1].is_eol() {
        StateName::DefinitionLabelLineStart { size, data: true }
    } else if line_begun(codes, start, end) {
        StateName::DefinitionLabelLineWhitespace { size, data: true }
    } else {
        StateName::DefinitionLabelInside { size, data: true }
    };
    lemma_move(first, begin, codes, t, name);
    let (next, result) = step(name, t.expect(code), code);
    assert(first.reaches(begin, codes, next, result.0));
    assert(next.stack =~= first.stack.push(TokenType::Definition));
    assert(behind_label(first, next, result.0, end));
}

// ----- What the construct reads as a title -----

/// Whether the codes from `start` up to `k` can stand in a title that
/// `closer` ends: none is the end of the input, what ends the title stands
/// only behind a backslash, as does an opening parenthesis in a title between
/// parentheses, and no line is blank.
pub open spec fn title_fits(codes: Seq<Code>, start: int, k: int, closer: char) -> bool
    decreases k - start,
{
    if k <= start {
        true
    } else {
        let code = codes[k - 1];
        &&& title_fits(codes, start, k - 1, closer)
        &&& code != Code::Eof
        &&& code == Code::Char(closer) || (code == Code::Char('(') && closer == ')')
            ==> escaping(codes, start, k - 1)
        &&& code.is_eol() ==> !line_begun(codes, start, k - 1)
    }
}

/// Whether the tokenizer `t` stands behind the code in front of `k`, in a
/// title that begins at `start`, behind the mark that opens it, with the
/// attempts of `first`.
pub open spec fn in_title(
    first: TokenizerView,
    t: TokenizerView,
    state: State,
    codes: Seq<Code>,
    start: int,
    k: int,
    closer: char,
) -> bool {
    let base = first.stack.push(TokenType::DefinitionTitle);
    &&& t.index == first.start_index + k
    &&& t.start_index == first.start_index
    &&& t.consumed
    &&& t.attempts == first.attempts
    &&& if k == start {
        t.stack == base && state == State::Next(StateName::DefinitionTitleAtBreak { closer })
    } else if escaping(codes, start, k) {
        t.stack == base.push(TokenType::DefinitionTitleString) && state == State::Next(
            StateName::DefinitionTitleEscape { closer },
        )
    } else if codes[k - 1].is_eol() {
        t.stack == base && state == State::Next(StateName::DefinitionTitleLineStart { closer })
    } else if line_begun(codes, start, k) {
        t.stack == base.push(TokenType::Whitespace) && state == State::Next(
            StateName::DefinitionTitleLineWhitespace { closer },
        )
    } else {
        t.stack == base.push(TokenType::DefinitionTitleString) && state == State::Next(
            StateName::DefinitionTitleInside { closer },
        )
    }
}

/// The construct passes over a title: begun at the mark that opens it,
/// in front of codes that can stand in a title, the machine passes over them
/// one by one, in the title.
pub proof fn lemma_title_passed(
    first: TokenizerView,
    codes: Seq<Code>,
    start: int,
    k: int,
    closer: char,
)
    requires
        1 <= start <= k <= codes.len(),
        first.start_index + codes.len() <= usize::MAX,
        first.index == first.start_index + start - 1,
        first.current == codes[start - 1],
        closer_of(codes[start - 1]) == Some(closer),
        !first.consumed,
        title_fits(codes, start, k, closer),
    ensures
        exists|t: TokenizerView, state: State|
            #[trigger] first.reaches(State::Next(StateName::DefinitionTitleBegin), codes, t, state)
                && in_title(first, t, state, codes, start, k, closer),
    decreases k - start,
{
    let begin = State::Next(StateName::DefinitionTitleBegin);
    let base = first.stack.push(TokenType::DefinitionTitle);
    if k == start {
        first.lemma_reaches_first(begin, codes);
        lemma_move(first, begin, codes, first, StateName::DefinitionTitleBegin);
        let (t, result) = step(StateName::DefinitionTitleBegin, first, first.current);
        assert(first.reaches(begin, codes, t, result.0));
        assert(t.stack =~= base);
        assert(in_title(first, t, result.0, codes, start, k, closer));
    } else {
        lemma_title_passed(first, codes, start, k - 1, closer);
        let (t, state) = choose|t: TokenizerView, state: State|
            #[trigger] first.reaches(begin, codes, t, state) && in_title(
                first,
                t,
                state,
                codes,
                start,
                k - 1,
                closer,
            );
        let code = codes[k - 1];
        assert(crate::machine::code_at(codes, t.index - t.start_index) == code);
        assert(line_begun(codes, start, k) == (code.is_eol() || (code.is_space_or_tab()
            && line_begun(codes, start, k - 1))));
        assert(escaping(codes, start, k) == (code == Code::Char('\\') && !escaping(
            codes,
            start,
            k - 1,
        )));
        if k - 1 == start {
            let name = StateName::DefinitionTitleAtBreak { closer };
            assert(!line_begun(codes, start, k - 1));
            assert(!escaping(codes, start, k - 1));
            lemma_move(first, begin, codes, t, name);
            let (next, result) = step(name, t.expect(code), code);
            assert(first.reaches(begin, codes, next, result.0));
            assert(base.push(TokenType::LineEnding).drop_last() =~= base);
            assert(base.push(TokenType::DefinitionTitleString).drop_last() =~= base);
            assert(base.push(TokenType::Whitespace).drop_last() =~= base);
            assert(next.stack =~= base || next.stack =~= base.push(TokenType::Whitespace)
                || next.stack =~= base.push(TokenType::DefinitionTitleString));
            assert(in_title(first, next, result.0, codes, start, k, closer));
        } else if escaping(codes, start, k - 1) {
            let name = StateName::DefinitionTitleEscape { closer };
            assert(codes[k - 2] == Code::Char('\\'));
            assert(!line_begun(codes, start, k - 1));
            lemma_move(first, begin, codes, t, name);
            let (next, result) = step(name, t.expect(code), code);
            assert(first.reaches(begin, codes, next, result.0));
            assert(base.push(TokenType::LineEnding).drop_last() =~= base);
            assert(base.push(TokenType::DefinitionTitleString).drop_last() =~= base);
            assert(base.push(TokenType::Whitespace).drop_last() =~= base);
            assert(next.stack =~= base || next.stack =~= base.push(TokenType::Whitespace)
                || next.stack =~= base.push(TokenType::DefinitionTitleString));
            assert(in_title(first, next, result.0, codes, start, k, closer));
        } else if codes[k - 2].is_eol() {
            let name = StateName::DefinitionTitleLineStart { closer };
            assert(line_begun(codes, start, k - 1));
            lemma_move(first, begin, codes, t, name);
            let (next, result) = step(name, t.expect(code), code);
            assert(first.reaches(begin, codes, next, result.0));
            assert(base.push(TokenType::LineEnding).drop_last() =~= base);
            assert(base.push(TokenType::DefinitionTitleString).drop_last() =~= base);
            assert(base.push(TokenType::Whitespace).drop_last() =~= base);
            assert(next.stack =~= base || next.stack =~= base.push(TokenType::Whitespace)
                || next.stack =~= base.push(TokenType::DefinitionTitleString));
            assert(in_title(first, next, result.0, codes, start, k, closer));
        } else if line_begun(codes, start, k - 1) {
            let name = StateName::DefinitionTitleLineWhitespace { closer };
            lemma_move(first, begin, codes, t, name);
            let (next, result) = step(name, t.expect(code), code);
            assert(first.reaches(begin, codes, next, result.0));
            assert(base.push(TokenType::LineEnding).drop_last() =~= base);
            assert(base.push(TokenType::Whitespace).drop_last() =~= base);
            assert(next.stack =~= base || next.stack =~= base.push(TokenType::Whitespace)
                || next.stack =~= base.push(TokenType::DefinitionTitleString));
            assert(in_title(first, next, result.0, codes, start, k, closer));
        } else {
            let name = StateName::DefinitionTitleInside { closer };
            lemma_move(first, begin, codes, t, name);
            let (next, result) = step(name, t.expect(code), code);
            assert(first.reaches(begin, codes, next, result.0));
            assert(base.push(TokenType::LineEnding).drop_last() =~= base);
            assert(base.push(TokenType::DefinitionTitleString).drop_last() =~= base);
            assert(base.push(TokenType::Whitespace).drop_last() =~= base);
            assert(next.stack =~= base || next.stack =~= base.push(TokenType::Whitespace)
                || next.stack =~= base.push(TokenType::DefinitionTitleString));
            assert(in_title(first, next, result.0, codes, start, k, closer));
        }
    }
}

/// Whether the tokenizer `t` stands behind a title that ends in front of
/// `end`, behind the mark that closes it, with the attempts of `first` and
/// the title closed.
pub open spec fn behind_title(
    first: TokenizerView,
    t: TokenizerView,
    state: State,
    end: int,
) -> bool {
    &&& t.index == first.start_index + end + 1
    &&& t.start_index == first.start_index
    &&& t.consumed
    &&& t.attempts == first.attempts
    &&& t.stack == first.stack
    &&& state == State::Next(StateName::DefinitionTitleAfter)
}

/// The construct reads a title to its end: begun at the mark that opens
/// it, in front of codes that can stand in a title, with no backslash that
/// escapes at their end and the closing mark behind them, the machine closes
/// the title behind that mark.
pub proof fn lemma_title_read(
    first: TokenizerView,
    codes: Seq<Code>,
    start: int,
    end: int,
    closer: char,
)
    requires
        1 <= start <= end < codes.len(),
        first.start_index + codes.len() < usize::MAX,
        first.index == first.start_index + start - 1,
        first.current == codes[start - 1],
        closer_of(codes[start - 1]) == Some(closer),
        !first.consumed,
        title_fits(codes, start, end, closer),
        !escaping(codes, start, end),
        codes[end] == Code::Char(closer),
    ensures
        exists|t: TokenizerView, state: State|
            #[trigger] first.reaches(State::Next(StateName::DefinitionTitleBegin), codes, t, state)
                && behind_title(first, t, state, end),
{
    let begin = State::Next(StateName::DefinitionTitleBegin);
    lemma_title_passed(first, codes, start, end, closer);
    let (t, state) = choose|t: TokenizerView, state: State|
        #[trigger] first.reaches(begin, codes, t, state) && in_title(
            first,
            t,
            state,
            codes,
            start,
            end,
            closer,
        );
    let code = codes[end];
    assert(crate::machine::code_at(codes, t.index - t.start_index) == code);
    let name = if end == start {
        StateName::DefinitionTitleAtBreak { closer }
    } else if codes[end - 1].is_eol() {
        StateName::DefinitionTitleLineStart { closer }
    } else if line_begun(codes, start, end) {
        StateName::DefinitionTitleLineWhitespace { closer }
    } else {
        StateName::DefinitionTitleInside { closer }
    };
    lemma_move(first, begin, codes, t, name);
    let (next, result) = step(name, t.expect(code), code);
    assert(first.reaches(begin, codes, next, result.0));
    assert(next.stack =~= first.stack);
    assert(behind_title(first, next, result.0, end));
}

// ----- What the construct reads as a definition -----

/// Whether the tokenizer `t` stands at `k` with the attempts of `first`
/// and the spans of `stack` open.
pub open spec fn stands(
    first: TokenizerView,
    t: TokenizerView,
    stack: Seq<TokenType>,
    k: int,
) -> bool {
    &&& t.index == first.start_index + k
    &&& t.start_index == first.start_index
    &&& t.attempts == first.attempts
    &&& t.stack == stack
}

/// The attempt at a title behind a destination.
pub open spec fn titled(x: TokenizerView) -> TokenizerView {
    x.attempt(
        AttemptKind::Attempt,
        Seq::empty(),
        State::Next(StateName::DefinitionAfter),
        State::Next(StateName::DefinitionAfter),
    )
}

/// Whether a destination stands from `d` up to `e`: one without angle
/// brackets, which is not empty and begins with no angle bracket, or one
/// between angle brackets.
pub open spec fn destination_fits(codes: Seq<Code>, d: int, e: int) -> bool {
    &&& 0 <= d < e <= codes.len()
    &&& if codes[d] == Code::Char('<') {
        &&& d + 2 <= e
        &&& literal_fits(codes, d + 1, e - 1)
        &&& !escaping(codes, d + 1, e - 1)
        &&& codes[e - 1] == Code::Char('>')
    } else {
        raw_fits(codes, d, e)
    }
}

/// The construct reads from the label to the destination: begun at the
/// bracket that opens the label, the machine closes the label, passes the
/// colon and the space behind it, and stands in front of the destination.
pub proof fn lemma_read_label(first: TokenizerView, codes: Seq<Code>, start: int, end: int)
    requires
        1 <= start <= end,
        end + 3 <= codes.len(),
        first.start_index + codes.len() < usize::MAX,
        first.index == first.start_index + start - 1,
        first.current == Code::Char('['),
        codes[start - 1] == Code::Char('['),
        !first.consumed,
        label_fits(codes, start, end),
        label_data(codes, start, end),
        !escaping(codes, start, end),
        codes[end] == Code::Char(']'),
        codes[end + 1] == Code::Char(':'),
        codes[end + 2] == Code::Char(' '),
    ensures
        exists|t: TokenizerView|
            #[trigger] first.reaches(
                State::Next(StateName::DefinitionStart),
                codes,
                t,
                State::Next(StateName::DefinitionDestinationBeforeWhitespace { seen_eol: false }),
            ) && t.consumed && stands(
                first,
                t,
                first.stack.push(TokenType::Definition).push(TokenType::Whitespace),
                end + 3,
            ),
{
    let begin = State::Next(StateName::DefinitionStart);
    let base = first.stack.push(TokenType::Definition);
    lemma_label_read(first, codes, start, end);
    let (t1, s1) = choose|t: TokenizerView, state: State|
        #[trigger] first.reaches(begin, codes, t, state) && behind_label(first, t, state, end);
    lemma_move(first, begin, codes, t1, StateName::DefinitionLabelAfter);
    let colon = codes[end + 1];
    assert(crate::machine::code_at(codes, t1.index - t1.start_index) == colon);
    let (t2, r2) = step(StateName::DefinitionLabelAfter, t1.expect(colon), colon);
    assert(first.reaches(begin, codes, t2, r2.0));
    assert(t2.stack =~= base);
    lemma_move(first, begin, codes, t2, StateName::DefinitionMarkerAfter);
    let space = codes[end + 2];
    assert(crate::machine::code_at(codes, t2.index - t2.start_index) == space);
    let (t3, r3) = step(StateName::DefinitionMarkerAfter, t2.expect(space), space);
    assert(first.reaches(begin, codes, t3, r3.0));
    assert(stands(first, t3, base.push(TokenType::Whitespace), end + 3));
}

/// The construct reads the destination: from in front of a destination,
/// behind the whitespace in front of it, the machine passes over the
/// destination, closes it, and begins an attempt at a title with what
/// stands behind the destination.
pub proof fn lemma_read_destination(
    first: TokenizerView,
    begin: State,
    codes: Seq<Code>,
    t: TokenizerView,
    base: Seq<TokenType>,
    d: int,
    e: int,
)
    requires
        first.start_index + codes.len() < usize::MAX,
        first.reaches(
            begin,
            codes,
            t,
            State::Next(StateName::DefinitionDestinationBeforeWhitespace { seen_eol: false }),
        ),
        t.consumed,
        stands(first, t, base.push(TokenType::Whitespace), d),
        destination_fits(codes, d, e),
        crate::machine::code_at(codes, e) == Code::Char(' ') || e == codes.len(),
    ensures
        exists|x: TokenizerView|
            #[trigger] first.reaches(
                begin,
                codes,
                title_start_step(titled(x), crate::machine::code_at(codes, e)).0,
                title_start_step(titled(x), crate::machine::code_at(codes, e)).1.0,
            ) && !x.consumed && x.current == crate::machine::code_at(codes, e) && stands(
                first,
                x,
                base,
                e,
            ),
{
    let code = codes[d];
    let behind = crate::machine::code_at(codes, e);
    let name = StateName::DefinitionDestinationBeforeWhitespace { seen_eol: false };
    let fd = t.expect(code).exit(TokenType::Whitespace);
    let from = State::Next(StateName::DefinitionDestinationStart);
    assert(crate::machine::code_at(codes, t.index - t.start_index) == code);
    assert(fd.stack =~= base);
    if code == Code::Char('<') {
        assert(crate::machine::step(name, t.expect(code), code) == crate::machine::step(
            StateName::DefinitionDestinationStart,
            fd,
            code,
        ));
        assert(t.advance(State::Next(name), codes, true) == fd.advance(from, codes, true));
        lemma_literal_read(fd, codes, d + 1, e - 1);
        let (t4, s4) = choose|t4: TokenizerView, s4: State|
            #[trigger] fd.reaches(from, codes, t4, s4) && behind_literal(fd, t4, s4, e - 1);
        first.lemma_reaches_joined(begin, codes, t, State::Next(name), fd, from, t4, s4);
        lemma_move(first, begin, codes, t4, StateName::DefinitionDestinationAfter);
        assert(crate::machine::code_at(codes, t4.index - t4.start_index) == behind);
        let x = t4.expect(behind);
        assert(stands(first, x, base, e));
        assert(first.reaches(
            begin,
            codes,
            title_start_step(titled(x), behind).0,
            title_start_step(titled(x), behind).1.0,
        ));
    } else {
        assert(raw_fits(codes, d, d));
        assert(!escaping(codes, d, d));
        lemma_raw_prefix(codes, d, e, d + 1);
        assert(raw_code(code, false));
        assert(crate::machine::step(name, t.expect(code), code) == crate::machine::step(
            StateName::DefinitionDestinationStart,
            fd,
            code,
        ));
        assert(t.advance(State::Next(name), codes, true) == fd.advance(from, codes, true));
        lemma_raw_read(fd, codes, d, e);
        let (t4, s4) = choose|t4: TokenizerView, s4: State|
            #[trigger] fd.reaches(from, codes, t4, s4) && in_raw(fd, t4, s4, codes, d, e);
        first.lemma_reaches_joined(begin, codes, t, State::Next(name), fd, from, t4, s4);
        let escaped = escaping(codes, d, e);
        let last = if escaped {
            StateName::DefinitionDestinationRawEscape { depth: 0 }
        } else {
            StateName::DefinitionDestinationRaw { depth: 0 }
        };
        lemma_move(first, begin, codes, t4, last);
        assert(crate::machine::code_at(codes, t4.index - t4.start_index) == behind);
        lemma_raw_ends(t4.expect(behind), behind, escaped);
        let x = t4.expect(behind).exit(TokenType::DefinitionDestinationString).exit(
            TokenType::DefinitionDestinationRaw,
        ).exit(TokenType::DefinitionDestination);
        assert(x.stack =~= base);
        assert(stands(first, x, base, e));
        assert(first.reaches(
            begin,
            codes,
            title_start_step(titled(x), behind).0,
            title_start_step(titled(x), behind).1.0,
        ));
    }
}

/// Codes that can stand in a destination without angle brackets can do
/// so up to any place among them.
pub proof fn lemma_raw_prefix(codes: Seq<Code>, start: int, end: int, k: int)
    requires
        start <= k <= end,
        raw_fits(codes, start, end),
    ensures
        raw_fits(codes, start, k),
    decreases end - k,
{
    if k < end {
        lemma_raw_prefix(codes, start, end, k + 1);
    }
}

/// The construct ends a definition without a title: where the input ends
/// behind the destination, the attempt at a title does not match, and the
/// definition matches at the end of the input.
pub proof fn lemma_read_end(
    first: TokenizerView,
    begin: State,
    codes: Seq<Code>,
    x: TokenizerView,
    outer: Seq<TokenType>,
)
    requires
        first.reaches(
            begin,
            codes,
            title_start_step(titled(x), Code::Eof).0,
            title_start_step(titled(x), Code::Eof).1.0,
        ),
        !x.consumed,
        x.current == Code::Eof,
        x.stack.len() <= usize::MAX,
        stands(first, x, outer.push(TokenType::Definition), codes.len() as int),
    ensures
        exists|t: TokenizerView|
            #[trigger] first.reaches(begin, codes, t, State::Success) && stands(
                first,
                t,
                outer,
                codes.len() as int,
            ),
{
    let a = titled(x);
    assert(title_start_step(a, Code::Eof) == (a, (State::Failure, remainder(Code::Eof, false))));
    first.lemma_reaches_next(begin, codes, a, State::Failure);
    assert(a.attempts.len() > 0);
    assert(a.top().rest.len() == 0);
    let r = a.restore();
    assert(a.advance(State::Failure, codes, true) == (r, State::Next(StateName::DefinitionAfter)));
    assert(r.attempts =~= first.attempts);
    assert(r.stack =~= x.stack);
    lemma_move(first, begin, codes, r, StateName::DefinitionAfter);
    let (t, result) = step(StateName::DefinitionAfter, r, r.current);
    assert(first.reaches(begin, codes, t, result.0));
    assert(t.stack =~= outer);
    assert(stands(first, t, outer, codes.len() as int));
}

/// The construct ends a definition with a title: from behind the
/// destination, the machine passes the space in front of the title, reads
/// the title, keeps it, and the definition matches at the end of the input.
pub proof fn lemma_read_title(
    first: TokenizerView,
    begin: State,
    codes: Seq<Code>,
    x: TokenizerView,
    outer: Seq<TokenType>,
    e: int,
    end: int,
    closer: char,
)
    requires
        0 <= e,
        e + 2 <= end,
        end + 1 == codes.len(),
        first.start_index + codes.len() < usize::MAX,
        first.reaches(
            begin,
            codes,
            title_start_step(titled(x), Code::Char(' ')).0,
            title_start_step(titled(x), Code::Char(' ')).1.0,
        ),
        !x.consumed,
        x.current == Code::Char(' '),
        stands(first, x, outer.push(TokenType::Definition), e),
        codes[e] == Code::Char(' '),
        closer_of(codes[e + 1]) == Some(closer),
        title_fits(codes, e + 2, end, closer),
        !escaping(codes, e + 2, end),
        codes[end] == Code::Char(closer),
    ensures
        exists|t: TokenizerView|
            #[trigger] first.reaches(begin, codes, t, State::Success) && stands(
                first,
                t,
                outer,
                codes.len() as int,
            ),
{
    let base = outer.push(TokenType::Definition);
    let a = titled(x);
    let space = Code::Char(' ');
    let (t5, r5) = title_start_step(a, space);
    let name = StateName::DefinitionTitleBeforeWhitespace { seen_eol: false };
    assert(r5.0 == State::Next(name));
    let quote = codes[e + 1];
    assert(crate::machine::code_at(codes, t5.index - t5.start_index) == quote);
    let ft = t5.expect(quote).exit(TokenType::Whitespace);
    let from = State::Next(StateName::DefinitionTitleBegin);
    assert(ft.stack =~= base);
    assert(crate::machine::step(name, t5.expect(quote), quote) == crate::machine::step(
        StateName::DefinitionTitleBegin,
        ft,
        quote,
    ));
    assert(t5.advance(State::Next(name), codes, true) == ft.advance(from, codes, true));
    lemma_title_read(ft, codes, e + 2, end, closer);
    let (t6, s6) = choose|t6: TokenizerView, s6: State|
        #[trigger] ft.reaches(from, codes, t6, s6) && behind_title(ft, t6, s6, end);
    first.lemma_reaches_joined(begin, codes, t5, State::Next(name), ft, from, t6, s6);
    lemma_move(first, begin, codes, t6, StateName::DefinitionTitleAfter);
    assert(crate::machine::code_at(codes, t6.index - t6.start_index) == Code::Eof);
    let t7 = t6.expect(Code::Eof);
    assert(step(StateName::DefinitionTitleAfter, t7, Code::Eof).0 == t7);
    assert(first.reaches(begin, codes, t7, State::Success));
    first.lemma_reaches_next(begin, codes, t7, State::Success);
    assert(t7.attempts == a.attempts);
    assert(t7.attempts.len() > 0);
    let t8 = t7.keep();
    assert(t7.advance(State::Success, codes, true) == (
        t8,
        State::Next(StateName::DefinitionAfter),
    ));
    assert(t8.attempts =~= first.attempts);
    lemma_move(first, begin, codes, t8, StateName::DefinitionAfter);
    let (t, result) = step(StateName::DefinitionAfter, t8, t8.current);
    assert(first.reaches(begin, codes, t, result.0));
    assert(t.stack =~= outer);
    assert(stands(first, t, outer, codes.len() as int));
}

/// Whether a definition stands in `codes` from the bracket in front of
/// `start` up to the end: a label from `start` up to `end`, a colon, a space,
/// a destination up to `e`, and at most a title, behind a space, that ends in
/// front of the last code.
pub open spec fn definition_fits(
    codes: Seq<Code>,
    start: int,
    end: int,
    e: int,
    title: Option<(int, char)>,
) -> bool {
    &&& 1 <= start <= end
    &&& end + 3 <= codes.len()
    &&& codes[start - 1] == Code::Char('[')
    &&& label_fits(codes, start, end)
    &&& label_data(codes, start, end)
    &&& !escaping(codes, start, end)
    &&& codes[end] == Code::Char(']')
    &&& codes[end + 1] == Code::Char(':')
    &&& codes[end + 2] == Code::Char(' ')
    &&& destination_fits(codes, end + 3, e)
    &&& match title {
        None => e == codes.len(),
        Some((last, closer)) => {
            &&& e + 2 <= last
            &&& last + 1 == codes.len()
            &&& codes[e] == Code::Char(' ')
            &&& closer_of(codes[e + 1]) == Some(closer)
            &&& title_fits(codes, e + 2, last, closer)
            &&& !escaping(codes, e + 2, last)
            &&& codes[last] == Code::Char(closer)
        },
    }
}

/// The construct reads a definition: begun at the bracket that opens
/// the label of a definition that stands in the codes up to their end, the
/// machine comes to a match at the end of the input, with the attempts and
/// the open spans that it began with.
pub proof fn lemma_definition_read(
    first: TokenizerView,
    codes: Seq<Code>,
    start: int,
    end: int,
    e: int,
    title: Option<(int, char)>,
)
    requires
        definition_fits(codes, start, end, e, title),
        first.start_index + codes.len() < usize::MAX,
        first.stack.len() < usize::MAX,
        first.index == first.start_index + start - 1,
        first.current == Code::Char('['),
        !first.consumed,
    ensures
        exists|t: TokenizerView|
            #[trigger] first.reaches(
                State::Next(StateName::DefinitionStart),
                codes,
                t,
                State::Success,
            ) && stands(first, t, first.stack, codes.len() as int),
{
    let begin = State::Next(StateName::DefinitionStart);
    let base = first.stack.push(TokenType::Definition);
    let between = State::Next(StateName::DefinitionDestinationBeforeWhitespace { seen_eol: false });
    lemma_read_label(first, codes, start, end);
    let t3 = choose|t: TokenizerView|
        #[trigger] first.reaches(begin, codes, t, between) && t.consumed && stands(
            first,
            t,
            base.push(TokenType::Whitespace),
            end + 3,
        );
    let behind = crate::machine::code_at(codes, e);
    lemma_read_destination(first, begin, codes, t3, base, end + 3, e);
    let x = choose|x: TokenizerView|
        #[trigger] first.reaches(
            begin,
            codes,
            title_start_step(titled(x), behind).0,
            title_start_step(titled(x), behind).1.0,
        ) && !x.consumed && x.current == behind && stands(first, x, base, e);
    match title {
        None => {
            lemma_read_end(first, begin, codes, x, first.stack);
        },
        Some((last, closer)) => {
            lemma_read_title(first, begin, codes, x, first.stack, e, last, closer);
        },
    }
}

} // verus!
