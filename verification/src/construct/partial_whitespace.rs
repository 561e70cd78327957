//! A run of spaces and tabs inside a line.

use vstd::prelude::*;
use crate::code::Code;
use crate::event::TokenType;
use crate::state::{Family, State, StateFnResult, StateName};
use crate::tokenizer::{Tokenizer, TokenizerView, left, remainder};

verus! {

/// What [`start`] does.
pub open spec fn start_step(t: TokenizerView, code: Code, token_type: TokenType) -> (
    TokenizerView,
    StateFnResult,
) {
    if code.is_space_or_tab() {
        (
            t.enter(token_type).consume(),
            (State::Next(StateName::WhitespaceInside { token_type }), None),
        )
    } else {
        (t, (State::Failure, remainder(code, false)))
    }
}

/// What [`inside`] does.
pub open spec fn inside_step(t: TokenizerView, code: Code, token_type: TokenType) -> (
    TokenizerView,
    StateFnResult,
) {
    if code.is_space_or_tab() {
        (t.consume(), (State::Next(StateName::WhitespaceInside { token_type }), None))
    } else {
        (t.exit(token_type), (State::Success, remainder(code, false)))
    }
}

/// Before whitespace: one space or tab at least.
///
/// ```markdown
/// alpha| bravo
/// ```
pub fn start(tokenizer: &mut Tokenizer, code: Code, token_type: TokenType) -> (result:
    StateFnResult)
    requires
        old(tokenizer)@.awaits(StateName::WhitespaceStart { token_type }, code),
    ensures
        old(tokenizer)@.stepped(
            StateName::WhitespaceStart { token_type },
            code,
            final(tokenizer)@,
            result,
        ),
        (final(tokenizer)@, result) == start_step(old(tokenizer)@, code, token_type),
{
    if code.space_or_tab() {
        tokenizer.enter(token_type);
        tokenizer.consume(code);
        (State::Next(StateName::WhitespaceInside { token_type }), None)
    } else {
        (State::Failure, left(code, false))
    }
}

/// In whitespace.
///
/// ```markdown
/// alpha |bravo
/// ```
pub fn inside(tokenizer: &mut Tokenizer, code: Code, token_type: TokenType) -> (result:
    StateFnResult)
    requires
        old(tokenizer)@.awaits(StateName::WhitespaceInside { token_type }, code),
    ensures
        old(tokenizer)@.stepped(
            StateName::WhitespaceInside { token_type },
            code,
            final(tokenizer)@,
            result,
        ),
        (final(tokenizer)@, result) == inside_step(old(tokenizer)@, code, token_type),
{
    if code.space_or_tab() {
        tokenizer.consume(code);
        (State::Next(StateName::WhitespaceInside { token_type }), None)
    } else {
        tokenizer.exit(token_type);
        (State::Success, left(code, false))
    }
}

/// What the state function of `name` does, for the states of this file.
pub open spec fn step(name: StateName, t: TokenizerView, code: Code) -> (
    TokenizerView,
    StateFnResult,
) {
    match name {
        StateName::WhitespaceStart { token_type } => start_step(t, code, token_type),
        StateName::WhitespaceInside { token_type } => inside_step(t, code, token_type),
        _ => (t, (State::Failure, None)),
    }
}

/// Run the state function of `name`, which is a state of this file.
pub fn call(tokenizer: &mut Tokenizer, name: StateName, code: Code) -> (result: StateFnResult)
    requires
        old(tokenizer)@.awaits(name, code),
        name.family() == Family::Whitespace,
    ensures
        old(tokenizer)@.stepped(name, code, final(tokenizer)@, result),
        (final(tokenizer)@, result) == step(name, old(tokenizer)@, code),
{
    match name {
        StateName::WhitespaceStart { token_type } => start(tokenizer, code, token_type),
        StateName::WhitespaceInside { token_type } => inside(tokenizer, code, token_type),
        _ => (State::Failure, None),
    }
}

} // verus!
