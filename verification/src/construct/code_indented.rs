//! Indented code: lines that begin with four columns of whitespace, and the
//! blank lines among them.

use vstd::prelude::*;
use crate::code::{Code, TAB_SIZE};
use crate::event::TokenType;
use crate::state::{Family, State, StateFnResult, StateName};
use crate::tokenizer::{AttemptKind, Tokenizer, TokenizerView, left, remainder};

verus! {

/// What [`start`] does.
pub open spec fn start_step(t: TokenizerView, code: Code) -> (TokenizerView, StateFnResult) {
    if code.is_space_or_tab() {
        indent_step(
            t.enter(TokenType::CodeIndented).enter(TokenType::CodeIndentedPrefixWhitespace),
            code,
            0,
        )
    } else {
        (t, (State::Failure, remainder(code, false)))
    }
}

/// What [`indent`] does.
pub open spec fn indent_step(t: TokenizerView, code: Code, size: usize) -> (
    TokenizerView,
    StateFnResult,
) {
    if size == TAB_SIZE {
        at_break_step(t.exit(TokenType::CodeIndentedPrefixWhitespace), code)
    } else if code.is_space_or_tab() {
        (
            t.consume(),
            (State::Next(StateName::CodeIndentedIndent { size: (size + 1) as usize }), None),
        )
    } else {
        (t, (State::Failure, remainder(code, false)))
    }
}

/// What [`at_break`] does.
pub open spec fn at_break_step(t: TokenizerView, code: Code) -> (TokenizerView, StateFnResult) {
    if code == Code::Eof {
        after_step(t, code)
    } else if code.is_eol() {
        further_start_step(
            t.attempt(
                AttemptKind::Attempt,
                Seq::empty(),
                State::Next(StateName::CodeIndentedAtBreak),
                State::Next(StateName::CodeIndentedAfter),
            ),
            code,
        )
    } else {
        (
            t.enter(TokenType::CodeFlowChunk).consume(),
            (State::Next(StateName::CodeIndentedContent), None),
        )
    }
}

/// What [`content`] does.
pub open spec fn content_step(t: TokenizerView, code: Code) -> (TokenizerView, StateFnResult) {
    if code.is_line_end() {
        at_break_step(t.exit(TokenType::CodeFlowChunk), code)
    } else {
        (t.consume(), (State::Next(StateName::CodeIndentedContent), None))
    }
}

/// What [`after`] does.
pub open spec fn after_step(t: TokenizerView, code: Code) -> (TokenizerView, StateFnResult) {
    (t.exit(TokenType::CodeIndented), (State::Success, remainder(code, false)))
}

/// What [`further_start`] does.
pub open spec fn further_start_step(t: TokenizerView, code: Code) -> (
    TokenizerView,
    StateFnResult,
) {
    if code.is_eol() {
        (
            t.enter(TokenType::LineEnding).consume().exit(TokenType::LineEnding),
            (State::Next(StateName::CodeIndentedFurtherStart), None),
        )
    } else if code.is_space_or_tab() {
        (
            t.enter(TokenType::CodeIndentedPrefixWhitespace).consume(),
            (State::Next(StateName::CodeIndentedFurtherIndent { size: 1 }), None),
        )
    } else {
        (t, (State::Failure, remainder(code, false)))
    }
}

/// What [`further_indent`] does.
pub open spec fn further_indent_step(t: TokenizerView, code: Code, size: usize) -> (
    TokenizerView,
    StateFnResult,
) {
    if size == TAB_SIZE {
        (
            t.exit(TokenType::CodeIndentedPrefixWhitespace),
            (State::Success, remainder(code, false)),
        )
    } else if code.is_space_or_tab() {
        (
            t.consume(),
            (
                State::Next(StateName::CodeIndentedFurtherIndent { size: (size + 1) as usize }),
                None,
            ),
        )
    } else if code.is_eol() {
        (
            t.exit(TokenType::CodeIndentedPrefixWhitespace).enter(
                TokenType::LineEnding,
            ).consume().exit(TokenType::LineEnding),
            (State::Next(StateName::CodeIndentedFurtherStart), None),
        )
    } else {
        (t, (State::Failure, remainder(code, false)))
    }
}

/// Before indented code.
///
/// ```markdown
/// |    alpha
/// ```
pub fn start(tokenizer: &mut Tokenizer, code: Code) -> (result: StateFnResult)
    requires
        old(tokenizer)@.awaits(StateName::CodeIndentedStart, code),
    ensures
        old(tokenizer)@.stepped(StateName::CodeIndentedStart, code, final(tokenizer)@, result),
        (final(tokenizer)@, result) == start_step(old(tokenizer)@, code),
{
    if code.space_or_tab() {
        tokenizer.enter(TokenType::CodeIndented);
        tokenizer.enter(TokenType::CodeIndentedPrefixWhitespace);
        indent(tokenizer, code, 0)
    } else {
        (State::Failure, left(code, false))
    }
}

/// In the indent.
///
/// ```markdown
///  |   alpha
/// ```
pub fn indent(tokenizer: &mut Tokenizer, code: Code, size: usize) -> (result: StateFnResult)
    requires
        old(tokenizer)@.awaits(StateName::CodeIndentedIndent { size }, code),
    ensures
        old(tokenizer)@.stepped(
            StateName::CodeIndentedIndent { size },
            code,
            final(tokenizer)@,
            result,
        ),
        (final(tokenizer)@, result) == indent_step(old(tokenizer)@, code, size),
{
    if size == TAB_SIZE {
        tokenizer.exit(TokenType::CodeIndentedPrefixWhitespace);
        at_break(tokenizer, code)
    } else if code.space_or_tab() {
        tokenizer.consume(code);
        (State::Next(StateName::CodeIndentedIndent { size: size + 1 }), None)
    } else {
        (State::Failure, left(code, false))
    }
}

/// At the end of a line of code, or before its content.
///
/// ```markdown
///     |alpha
///     alpha|
/// ```
pub fn at_break(tokenizer: &mut Tokenizer, code: Code) -> (result: StateFnResult)
    requires
        old(tokenizer)@.awaits(StateName::CodeIndentedAtBreak, code),
    ensures
        old(tokenizer)@.stepped(StateName::CodeIndentedAtBreak, code, final(tokenizer)@, result),
        (final(tokenizer)@, result) == at_break_step(old(tokenizer)@, code),
{
    match code {
        Code::Eof => after(tokenizer, code),
        _ => {
            if code.eol() {
                tokenizer.attempt(
                    State::Next(StateName::CodeIndentedAtBreak),
                    State::Next(StateName::CodeIndentedAfter),
                );
                further_start(tokenizer, code)
            } else {
                tokenizer.enter(TokenType::CodeFlowChunk);
                tokenizer.consume(code);
                (State::Next(StateName::CodeIndentedContent), None)
            }
        },
    }
}

/// In the content of a line of code.
///
/// ```markdown
///     al|pha
/// ```
pub fn content(tokenizer: &mut Tokenizer, code: Code) -> (result: StateFnResult)
    requires
        old(tokenizer)@.awaits(StateName::CodeIndentedContent, code),
    ensures
        old(tokenizer)@.stepped(StateName::CodeIndentedContent, code, final(tokenizer)@, result),
        (final(tokenizer)@, result) == content_step(old(tokenizer)@, code),
{
    if code.line_end() {
        tokenizer.exit(TokenType::CodeFlowChunk);
        at_break(tokenizer, code)
    } else {
        tokenizer.consume(code);
        (State::Next(StateName::CodeIndentedContent), None)
    }
}

/// After indented code.
///
/// ```markdown
///     alpha|
/// ```
pub fn after(tokenizer: &mut Tokenizer, code: Code) -> (result: StateFnResult)
    requires
        old(tokenizer)@.awaits(StateName::CodeIndentedAfter, code),
    ensures
        old(tokenizer)@.stepped(StateName::CodeIndentedAfter, code, final(tokenizer)@, result),
        (final(tokenizer)@, result) == after_step(old(tokenizer)@, code),
{
    tokenizer.exit(TokenType::CodeIndented);
    (State::Success, left(code, false))
}

/// At a line ending behind a line of code: more code may follow, behind
/// blank lines at will.
///
/// ```markdown
///     alpha|
///     bravo
/// ```
pub fn further_start(tokenizer: &mut Tokenizer, code: Code) -> (result: StateFnResult)
    requires
        old(tokenizer)@.awaits(StateName::CodeIndentedFurtherStart, code),
    ensures
        old(tokenizer)@.stepped(
            StateName::CodeIndentedFurtherStart,
            code,
            final(tokenizer)@,
            result,
        ),
        (final(tokenizer)@, result) == further_start_step(old(tokenizer)@, code),
{
    if code.eol() {
        tokenizer.enter(TokenType::LineEnding);
        tokenizer.consume(code);
        tokenizer.exit(TokenType::LineEnding);
        (State::Next(StateName::CodeIndentedFurtherStart), None)
    } else if code.space_or_tab() {
        tokenizer.enter(TokenType::CodeIndentedPrefixWhitespace);
        tokenizer.consume(code);
        (State::Next(StateName::CodeIndentedFurtherIndent { size: 1 }), None)
    } else {
        (State::Failure, left(code, false))
    }
}

/// In the indent of a further line.
///
/// ```markdown
///     alpha
///   |  bravo
/// ```
pub fn further_indent(tokenizer: &mut Tokenizer, code: Code, size: usize) -> (result:
    StateFnResult)
    requires
        old(tokenizer)@.awaits(StateName::CodeIndentedFurtherIndent { size }, code),
    ensures
        old(tokenizer)@.stepped(
            StateName::CodeIndentedFurtherIndent { size },
            code,
            final(tokenizer)@,
            result,
        ),
        (final(tokenizer)@, result) == further_indent_step(old(tokenizer)@, code, size),
{
    if size == TAB_SIZE {
        tokenizer.exit(TokenType::CodeIndentedPrefixWhitespace);
        (State::Success, left(code, false))
    } else if code.space_or_tab() {
        tokenizer.consume(code);
        (State::Next(StateName::CodeIndentedFurtherIndent { size: size + 1 }), None)
    } else if code.eol() {
        tokenizer.exit(TokenType::CodeIndentedPrefixWhitespace);
        tokenizer.enter(TokenType::LineEnding);
        tokenizer.consume(code);
        tokenizer.exit(TokenType::LineEnding);
        (State::Next(StateName::CodeIndentedFurtherStart), None)
    } else {
        (State::Failure, left(code, false))
    }
}

/// What the state function of `name` does, for the states of this file.
pub open spec fn step(name: StateName, t: TokenizerView, code: Code) -> (
    TokenizerView,
    StateFnResult,
) {
    match name {
        StateName::CodeIndentedStart => start_step(t, code),
        StateName::CodeIndentedIndent { size } => indent_step(t, code, size),
        StateName::CodeIndentedAtBreak => at_break_step(t, code),
        StateName::CodeIndentedContent => content_step(t, code),
        StateName::CodeIndentedAfter => after_step(t, code),
        StateName::CodeIndentedFurtherStart => further_start_step(t, code),
        StateName::CodeIndentedFurtherIndent { size } => further_indent_step(t, code, size),
        _ => (t, (State::Failure, None)),
    }
}

/// Run the state function of `name`, which is a state of this file.
pub fn call(tokenizer: &mut Tokenizer, name: StateName, code: Code) -> (result: StateFnResult)
    requires
        old(tokenizer)@.awaits(name, code),
        name.family() == Family::CodeIndented,
    ensures
        old(tokenizer)@.stepped(name, code, final(tokenizer)@, result),
        (final(tokenizer)@, result) == step(name, old(tokenizer)@, code),
{
    match name {
        StateName::CodeIndentedStart => start(tokenizer, code),
        StateName::CodeIndentedIndent { size } => indent(tokenizer, code, size),
        StateName::CodeIndentedAtBreak => at_break(tokenizer, code),
        StateName::CodeIndentedContent => content(tokenizer, code),
        StateName::CodeIndentedAfter => after(tokenizer, code),
        StateName::CodeIndentedFurtherStart => further_start(tokenizer, code),
        StateName::CodeIndentedFurtherIndent { size } => further_indent(tokenizer, code, size),
        _ => (State::Failure, None),
    }
}

} // verus!
