//! A blank line: nothing but spaces and tabs up to the line ending or the
//! end of the input.

use vstd::prelude::*;
use crate::code::Code;
use crate::construct::partial_whitespace;
use crate::event::TokenType;
use crate::state::{Family, State, StateFnResult, StateName};
use crate::tokenizer::{AttemptKind, Tokenizer, TokenizerView, left, remainder};

verus! {

/// What [`start`] does.
pub open spec fn start_step(t: TokenizerView, code: Code) -> (TokenizerView, StateFnResult) {
    partial_whitespace::start_step(
        t.attempt(
            AttemptKind::Attempt,
            Seq::empty(),
            State::Next(StateName::BlankLineAfter),
            State::Next(StateName::BlankLineAfter),
        ),
        code,
        TokenType::BlankLineWhitespace,
    )
}

/// What [`after`] does.
pub open spec fn after_step(t: TokenizerView, code: Code) -> (TokenizerView, StateFnResult) {
    if code.is_line_end() {
        (t, (State::Success, remainder(code, false)))
    } else {
        (t, (State::Failure, remainder(code, false)))
    }
}

/// Before a blank line: try whitespace first.
///
/// ```markdown
/// |␠␠
/// |
/// ```
pub fn start(tokenizer: &mut Tokenizer, code: Code) -> (result: StateFnResult)
    requires
        old(tokenizer)@.awaits(StateName::BlankLineStart, code),
    ensures
        old(tokenizer)@.stepped(StateName::BlankLineStart, code, final(tokenizer)@, result),
        (final(tokenizer)@, result) == start_step(old(tokenizer)@, code),
{
    tokenizer.attempt(
        State::Next(StateName::BlankLineAfter),
        State::Next(StateName::BlankLineAfter),
    );
    partial_whitespace::start(tokenizer, code, TokenType::BlankLineWhitespace)
}

/// After the whitespace, if there was any.
///
/// ```markdown
/// ␠␠|
/// |
/// ```
pub fn after(tokenizer: &mut Tokenizer, code: Code) -> (result: StateFnResult)
    requires
        old(tokenizer)@.awaits(StateName::BlankLineAfter, code),
    ensures
        old(tokenizer)@.stepped(StateName::BlankLineAfter, code, final(tokenizer)@, result),
        (final(tokenizer)@, result) == after_step(old(tokenizer)@, code),
{
    if code.line_end() {
        (State::Success, left(code, false))
    } else {
        (State::Failure, left(code, false))
    }
}

/// What the state function of `name` does, for the states of this file.
pub open spec fn step(name: StateName, t: TokenizerView, code: Code) -> (
    TokenizerView,
    StateFnResult,
) {
    match name {
        StateName::BlankLineStart => start_step(t, code),
        StateName::BlankLineAfter => after_step(t, code),
        _ => (t, (State::Failure, None)),
    }
}

/// Run the state function of `name`, which is a state of this file.
pub fn call(tokenizer: &mut Tokenizer, name: StateName, code: Code) -> (result: StateFnResult)
    requires
        old(tokenizer)@.awaits(name, code),
        name.family() == Family::BlankLine,
    ensures
        old(tokenizer)@.stepped(name, code, final(tokenizer)@, result),
        (final(tokenizer)@, result) == step(name, old(tokenizer)@, code),
{
    match name {
        StateName::BlankLineStart => start(tokenizer, code),
        StateName::BlankLineAfter => after(tokenizer, code),
        _ => (State::Failure, None),
    }
}

} // verus!
