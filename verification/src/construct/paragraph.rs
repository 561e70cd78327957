//! A paragraph: the lines of a run of content, each line as data.

use vstd::prelude::*;
use crate::code::Code;
use crate::event::TokenType;
use crate::state::{Family, State, StateFnResult, StateName};
use crate::tokenizer::{Tokenizer, TokenizerView};

verus! {

/// What [`start`] does.
pub open spec fn start_step(t: TokenizerView, code: Code) -> (TokenizerView, StateFnResult) {
    if code == Code::Eof {
        (t, (State::Success, None))
    } else {
        line_start_step(t.enter(TokenType::Paragraph), code)
    }
}

/// What [`line_start`] does.
pub open spec fn line_start_step(t: TokenizerView, code: Code) -> (TokenizerView, StateFnResult) {
    if code == Code::Eof {
        (t.exit(TokenType::Paragraph), (State::Success, None))
    } else if code.is_eol() {
        (
            t.enter(TokenType::LineEnding).consume().exit(TokenType::LineEnding),
            (State::Next(StateName::ParagraphLineStart), None),
        )
    } else {
        (t.enter(TokenType::Data).consume(), (State::Next(StateName::ParagraphData), None))
    }
}

/// What [`data`] does.
pub open spec fn data_step(t: TokenizerView, code: Code) -> (TokenizerView, StateFnResult) {
    if code.is_line_end() {
        line_start_step(t.exit(TokenType::Data), code)
    } else {
        (t.consume(), (State::Next(StateName::ParagraphData), None))
    }
}

/// Before a paragraph.
///
/// ```markdown
/// |alpha
/// bravo
/// ```
pub fn start(tokenizer: &mut Tokenizer, code: Code) -> (result: StateFnResult)
    requires
        old(tokenizer)@.awaits(StateName::ParagraphStart, code),
    ensures
        old(tokenizer)@.stepped(StateName::ParagraphStart, code, final(tokenizer)@, result),
        (final(tokenizer)@, result) == start_step(old(tokenizer)@, code),
{
    match code {
        Code::Eof => (State::Success, None),
        _ => {
            tokenizer.enter(TokenType::Paragraph);
            line_start(tokenizer, code)
        },
    }
}

/// At the start of a line of a paragraph.
///
/// ```markdown
/// alpha
/// |bravo
/// ```
pub fn line_start(tokenizer: &mut Tokenizer, code: Code) -> (result: StateFnResult)
    requires
        old(tokenizer)@.awaits(StateName::ParagraphLineStart, code),
    ensures
        old(tokenizer)@.stepped(StateName::ParagraphLineStart, code, final(tokenizer)@, result),
        (final(tokenizer)@, result) == line_start_step(old(tokenizer)@, code),
{
    match code {
        Code::Eof => {
            tokenizer.exit(TokenType::Paragraph);
            (State::Success, None)
        },
        _ => {
            if code.eol() {
                tokenizer.enter(TokenType::LineEnding);
                tokenizer.consume(code);
                tokenizer.exit(TokenType::LineEnding);
                (State::Next(StateName::ParagraphLineStart), None)
            } else {
                tokenizer.enter(TokenType::Data);
                tokenizer.consume(code);
                (State::Next(StateName::ParagraphData), None)
            }
        },
    }
}

/// In a line of a paragraph.
///
/// ```markdown
/// al|pha
/// ```
pub fn data(tokenizer: &mut Tokenizer, code: Code) -> (result: StateFnResult)
    requires
        old(tokenizer)@.awaits(StateName::ParagraphData, code),
    ensures
        old(tokenizer)@.stepped(StateName::ParagraphData, code, final(tokenizer)@, result),
        (final(tokenizer)@, result) == data_step(old(tokenizer)@, code),
{
    if code.line_end() {
        tokenizer.exit(TokenType::Data);
        line_start(tokenizer, code)
    } else {
        tokenizer.consume(code);
        (State::Next(StateName::ParagraphData), None)
    }
}

/// What the state function of `name` does, for the states of this file.
pub open spec fn step(name: StateName, t: TokenizerView, code: Code) -> (
    TokenizerView,
    StateFnResult,
) {
    match name {
        StateName::ParagraphStart => start_step(t, code),
        StateName::ParagraphLineStart => line_start_step(t, code),
        StateName::ParagraphData => data_step(t, code),
        _ => (t, (State::Failure, None)),
    }
}

/// Run the state function of `name`, which is a state of this file.
pub fn call(tokenizer: &mut Tokenizer, name: StateName, code: Code) -> (result: StateFnResult)
    requires
        old(tokenizer)@.awaits(name, code),
        name.family() == Family::Paragraph,
    ensures
        old(tokenizer)@.stepped(name, code, final(tokenizer)@, result),
        (final(tokenizer)@, result) == step(name, old(tokenizer)@, code),
{
    match name {
        StateName::ParagraphStart => start(tokenizer, code),
        StateName::ParagraphLineStart => line_start(tokenizer, code),
        StateName::ParagraphData => data(tokenizer, code),
        _ => (State::Failure, None),
    }
}

} // verus!
