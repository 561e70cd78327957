//! An ATX heading: one to six number signs, then the end of the line or
//! whitespace and text, with a closing run of number signs at will.
//!
//! The closing run counts only where whitespace stands before it and
//! nothing but whitespace behind it, so the state machine looks ahead where
//! the text may end.

use vstd::prelude::*;
use crate::code::Code;
use crate::event::TokenType;
use crate::machine::code_at;
use crate::state::{Family, State, StateFnResult, StateName};
use crate::tokenizer::{AttemptKind, Tokenizer, TokenizerView, left, remainder};

verus! {

/// The most number signs in the opening sequence.
pub const HEADING_ATX_OPENING_FENCE_SIZE_MAX: usize = 6;

/// What [`start`] does.
pub open spec fn start_step(t: TokenizerView, code: Code) -> (TokenizerView, StateFnResult) {
    if code == Code::Char('#') {
        sequence_open_step(
            t.enter(TokenType::HeadingAtx).enter(TokenType::HeadingAtxSequence),
            code,
            0,
        )
    } else {
        (t, (State::Failure, remainder(code, false)))
    }
}

/// Before a heading.
///
/// ```markdown
/// |## alpha
/// ```
pub fn start(tokenizer: &mut Tokenizer, code: Code) -> (result: StateFnResult)
    requires
        old(tokenizer)@.awaits(StateName::HeadingAtxStart, code),
    ensures
        old(tokenizer)@.stepped(StateName::HeadingAtxStart, code, final(tokenizer)@, result),
        (final(tokenizer)@, result) == start_step(old(tokenizer)@, code),
{
    if code.is('#') {
        tokenizer.enter(TokenType::HeadingAtx);
        tokenizer.enter(TokenType::HeadingAtxSequence);
        sequence_open(tokenizer, code, 0)
    } else {
        (State::Failure, left(code, false))
    }
}

/// What [`sequence_open`] does.
pub open spec fn sequence_open_step(
    t: TokenizerView,
    code: Code,
    rank: usize,
) -> (TokenizerView, StateFnResult) {
    if code == Code::Char('#') && rank < HEADING_ATX_OPENING_FENCE_SIZE_MAX {
        (
            t.consume(),
            (State::Next(StateName::HeadingAtxSequenceOpen { rank: (rank + 1) as usize }), None),
        )
    } else if code.is_line_end() && rank > 0 {
        (
            t.exit(TokenType::HeadingAtxSequence).enter(TokenType::HeadingAtxText).exit(
                TokenType::HeadingAtxText,
            ).exit(TokenType::HeadingAtx),
            (State::Success, remainder(code, false)),
        )
    } else if code.is_space_or_tab() && rank > 0 {
        (
            t.exit(TokenType::HeadingAtxSequence).enter(TokenType::HeadingAtxWhitespace).consume(),
            (State::Next(StateName::HeadingAtxBefore), None),
        )
    } else {
        (t, (State::Failure, remainder(code, false)))
    }
}

/// In the opening sequence.
///
/// ```markdown
/// #|# alpha
/// ```
pub fn sequence_open(tokenizer: &mut Tokenizer, code: Code, rank: usize) -> (result: StateFnResult)
    requires
        old(tokenizer)@.awaits(StateName::HeadingAtxSequenceOpen { rank }, code),
    ensures
        old(tokenizer)@.stepped(
            StateName::HeadingAtxSequenceOpen { rank },
            code,
            final(tokenizer)@,
            result,
        ),
        (final(tokenizer)@, result) == sequence_open_step(old(tokenizer)@, code, rank),
{
    if code.is('#') && rank < HEADING_ATX_OPENING_FENCE_SIZE_MAX {
        tokenizer.consume(code);
        (State::Next(StateName::HeadingAtxSequenceOpen { rank: rank + 1 }), None)
    } else if code.line_end() && rank > 0 {
        tokenizer.exit(TokenType::HeadingAtxSequence);
        tokenizer.enter(TokenType::HeadingAtxText);
        tokenizer.exit(TokenType::HeadingAtxText);
        tokenizer.exit(TokenType::HeadingAtx);
        (State::Success, left(code, false))
    } else if code.space_or_tab() && rank > 0 {
        tokenizer.exit(TokenType::HeadingAtxSequence);
        tokenizer.enter(TokenType::HeadingAtxWhitespace);
        tokenizer.consume(code);
        (State::Next(StateName::HeadingAtxBefore), None)
    } else {
        (State::Failure, left(code, false))
    }
}

/// What [`before`] does.
pub open spec fn before_step(t: TokenizerView, code: Code) -> (TokenizerView, StateFnResult) {
    if code.is_space_or_tab() {
        (t.consume(), (State::Next(StateName::HeadingAtxBefore), None))
    } else {
        text_start_step(t.exit(TokenType::HeadingAtxWhitespace), code)
    }
}

/// In the whitespace after the opening sequence.
///
/// ```markdown
/// ## |alpha
/// ```
pub fn before(tokenizer: &mut Tokenizer, code: Code) -> (result: StateFnResult)
    requires
        old(tokenizer)@.awaits(StateName::HeadingAtxBefore, code),
    ensures
        old(tokenizer)@.stepped(StateName::HeadingAtxBefore, code, final(tokenizer)@, result),
        (final(tokenizer)@, result) == before_step(old(tokenizer)@, code),
{
    if code.space_or_tab() {
        tokenizer.consume(code);
        (State::Next(StateName::HeadingAtxBefore), None)
    } else {
        tokenizer.exit(TokenType::HeadingAtxWhitespace);
        text_start(tokenizer, code)
    }
}

/// What [`text_start`] does.
pub open spec fn text_start_step(t: TokenizerView, code: Code) -> (TokenizerView, StateFnResult) {
    if code.is_line_end() {
        (
            t.enter(TokenType::HeadingAtxText).exit(TokenType::HeadingAtxText).exit(
                TokenType::HeadingAtx,
            ),
            (State::Success, remainder(code, false)),
        )
    } else if code == Code::Char('#') {
        trailing_start_step(
            t.attempt(
                AttemptKind::Check,
                Seq::empty(),
                State::Next(StateName::HeadingAtxClosingOnly),
                State::Next(StateName::HeadingAtxTextBegin),
            ),
            code,
        )
    } else {
        (
            t.enter(TokenType::HeadingAtxText).consume(),
            (State::Next(StateName::HeadingAtxData), None),
        )
    }
}

/// Before the text, or before a closing sequence in its place.
///
/// ```markdown
/// ## |alpha
/// ## |##
/// ```
pub fn text_start(tokenizer: &mut Tokenizer, code: Code) -> (result: StateFnResult)
    requires
        old(tokenizer)@.awaits(StateName::HeadingAtxTextStart, code),
    ensures
        old(tokenizer)@.stepped(StateName::HeadingAtxTextStart, code, final(tokenizer)@, result),
        (final(tokenizer)@, result) == text_start_step(old(tokenizer)@, code),
{
    if code.line_end() {
        tokenizer.enter(TokenType::HeadingAtxText);
        tokenizer.exit(TokenType::HeadingAtxText);
        tokenizer.exit(TokenType::HeadingAtx);
        (State::Success, left(code, false))
    } else if code.is('#') {
        tokenizer.check(
            State::Next(StateName::HeadingAtxClosingOnly),
            State::Next(StateName::HeadingAtxTextBegin),
        );
        trailing_start(tokenizer, code)
    } else {
        tokenizer.enter(TokenType::HeadingAtxText);
        tokenizer.consume(code);
        (State::Next(StateName::HeadingAtxData), None)
    }
}

/// What [`text_begin`] does.
pub open spec fn text_begin_step(t: TokenizerView, code: Code) -> (TokenizerView, StateFnResult) {
    if code == Code::Char('#') {
        (
            t.enter(TokenType::HeadingAtxText).consume(),
            (State::Next(StateName::HeadingAtxData), None),
        )
    } else {
        (t, (State::Failure, remainder(code, false)))
    }
}

/// At a number sign that begins the text.
///
/// ```markdown
/// ## |#alpha
/// ```
pub fn text_begin(tokenizer: &mut Tokenizer, code: Code) -> (result: StateFnResult)
    requires
        old(tokenizer)@.awaits(StateName::HeadingAtxTextBegin, code),
    ensures
        old(tokenizer)@.stepped(StateName::HeadingAtxTextBegin, code, final(tokenizer)@, result),
        (final(tokenizer)@, result) == text_begin_step(old(tokenizer)@, code),
{
    if code.is('#') {
        tokenizer.enter(TokenType::HeadingAtxText);
        tokenizer.consume(code);
        (State::Next(StateName::HeadingAtxData), None)
    } else {
        (State::Failure, left(code, false))
    }
}

/// What [`closing_only`] does.
pub open spec fn closing_only_step(t: TokenizerView, code: Code) -> (TokenizerView, StateFnResult) {
    if code == Code::Char('#') {
        (
            t.enter(TokenType::HeadingAtxText).exit(TokenType::HeadingAtxText).enter(
                TokenType::HeadingAtxSequence,
            ).consume(),
            (State::Next(StateName::HeadingAtxClosingSequence), None),
        )
    } else {
        (t, (State::Failure, remainder(code, false)))
    }
}

/// At a closing sequence that stands in the place of the text: the text
/// is empty.
///
/// ```markdown
/// ## |##
/// ```
pub fn closing_only(tokenizer: &mut Tokenizer, code: Code) -> (result: StateFnResult)
    requires
        old(tokenizer)@.awaits(StateName::HeadingAtxClosingOnly, code),
    ensures
        old(tokenizer)@.stepped(StateName::HeadingAtxClosingOnly, code, final(tokenizer)@, result),
        (final(tokenizer)@, result) == closing_only_step(old(tokenizer)@, code),
{
    if code.is('#') {
        tokenizer.enter(TokenType::HeadingAtxText);
        tokenizer.exit(TokenType::HeadingAtxText);
        tokenizer.enter(TokenType::HeadingAtxSequence);
        tokenizer.consume(code);
        (State::Next(StateName::HeadingAtxClosingSequence), None)
    } else {
        (State::Failure, left(code, false))
    }
}

/// What [`data`] does.
pub open spec fn data_step(t: TokenizerView, code: Code) -> (TokenizerView, StateFnResult) {
    if code.is_line_end() {
        (
            t.exit(TokenType::HeadingAtxText).exit(TokenType::HeadingAtx),
            (State::Success, remainder(code, false)),
        )
    } else if code.is_space_or_tab() {
        trailing_start_step(
            t.attempt(
                AttemptKind::Check,
                Seq::empty(),
                State::Next(StateName::HeadingAtxDataEnd),
                State::Next(StateName::HeadingAtxDataGo),
            ),
            code,
        )
    } else {
        (t.consume(), (State::Next(StateName::HeadingAtxData), None))
    }
}

/// In the text.
///
/// ```markdown
/// ## al|pha
/// ```
pub fn data(tokenizer: &mut Tokenizer, code: Code) -> (result: StateFnResult)
    requires
        old(tokenizer)@.awaits(StateName::HeadingAtxData, code),
    ensures
        old(tokenizer)@.stepped(StateName::HeadingAtxData, code, final(tokenizer)@, result),
        (final(tokenizer)@, result) == data_step(old(tokenizer)@, code),
{
    if code.line_end() {
        tokenizer.exit(TokenType::HeadingAtxText);
        tokenizer.exit(TokenType::HeadingAtx);
        (State::Success, left(code, false))
    } else if code.space_or_tab() {
        tokenizer.check(
            State::Next(StateName::HeadingAtxDataEnd),
            State::Next(StateName::HeadingAtxDataGo),
        );
        trailing_start(tokenizer, code)
    } else {
        tokenizer.consume(code);
        (State::Next(StateName::HeadingAtxData), None)
    }
}

/// What [`data_end`] does.
pub open spec fn data_end_step(t: TokenizerView, code: Code) -> (TokenizerView, StateFnResult) {
    if code.is_space_or_tab() {
        (
            t.exit(TokenType::HeadingAtxText).enter(TokenType::HeadingAtxWhitespace).consume(),
            (State::Next(StateName::HeadingAtxClosingWhitespace), None),
        )
    } else {
        (t, (State::Failure, remainder(code, false)))
    }
}

/// At whitespace behind the text, with nothing but whitespace and a
/// closing sequence up to the end of the line.
///
/// ```markdown
/// ## alpha| ##
/// ```
pub fn data_end(tokenizer: &mut Tokenizer, code: Code) -> (result: StateFnResult)
    requires
        old(tokenizer)@.awaits(StateName::HeadingAtxDataEnd, code),
    ensures
        old(tokenizer)@.stepped(StateName::HeadingAtxDataEnd, code, final(tokenizer)@, result),
        (final(tokenizer)@, result) == data_end_step(old(tokenizer)@, code),
{
    if code.space_or_tab() {
        tokenizer.exit(TokenType::HeadingAtxText);
        tokenizer.enter(TokenType::HeadingAtxWhitespace);
        tokenizer.consume(code);
        (State::Next(StateName::HeadingAtxClosingWhitespace), None)
    } else {
        (State::Failure, left(code, false))
    }
}

/// What [`data_go`] does.
pub open spec fn data_go_step(t: TokenizerView, code: Code) -> (TokenizerView, StateFnResult) {
    if code.is_space_or_tab() {
        (t.consume(), (State::Next(StateName::HeadingAtxData), None))
    } else {
        (t, (State::Failure, remainder(code, false)))
    }
}

/// At whitespace inside the text.
///
/// ```markdown
/// ## alpha| bravo
/// ```
pub fn data_go(tokenizer: &mut Tokenizer, code: Code) -> (result: StateFnResult)
    requires
        old(tokenizer)@.awaits(StateName::HeadingAtxDataGo, code),
    ensures
        old(tokenizer)@.stepped(StateName::HeadingAtxDataGo, code, final(tokenizer)@, result),
        (final(tokenizer)@, result) == data_go_step(old(tokenizer)@, code),
{
    if code.space_or_tab() {
        tokenizer.consume(code);
        (State::Next(StateName::HeadingAtxData), None)
    } else {
        (State::Failure, left(code, false))
    }
}

/// What [`closing_whitespace`] does.
pub open spec fn closing_whitespace_step(
    t: TokenizerView,
    code: Code,
) -> (TokenizerView, StateFnResult) {
    if code.is_space_or_tab() {
        (t.consume(), (State::Next(StateName::HeadingAtxClosingWhitespace), None))
    } else if code == Code::Char('#') {
        (
            t.exit(TokenType::HeadingAtxWhitespace).enter(
                TokenType::HeadingAtxSequence,
            ).consume(),
            (State::Next(StateName::HeadingAtxClosingSequence), None),
        )
    } else if code.is_line_end() {
        (
            t.exit(TokenType::HeadingAtxWhitespace).exit(TokenType::HeadingAtx),
            (State::Success, remainder(code, false)),
        )
    } else {
        (t, (State::Failure, remainder(code, false)))
    }
}

/// In the whitespace behind the text.
///
/// ```markdown
/// ## alpha |##
/// ```
pub fn closing_whitespace(tokenizer: &mut Tokenizer, code: Code) -> (result: StateFnResult)
    requires
        old(tokenizer)@.awaits(StateName::HeadingAtxClosingWhitespace, code),
    ensures
        old(tokenizer)@.stepped(
            StateName::HeadingAtxClosingWhitespace,
            code,
            final(tokenizer)@,
            result,
        ),
        (final(tokenizer)@, result) == closing_whitespace_step(old(tokenizer)@, code),
{
    if code.space_or_tab() {
        tokenizer.consume(code);
        (State::Next(StateName::HeadingAtxClosingWhitespace), None)
    } else if code.is('#') {
        tokenizer.exit(TokenType::HeadingAtxWhitespace);
        tokenizer.enter(TokenType::HeadingAtxSequence);
        tokenizer.consume(code);
        (State::Next(StateName::HeadingAtxClosingSequence), None)
    } else if code.line_end() {
        tokenizer.exit(TokenType::HeadingAtxWhitespace);
        tokenizer.exit(TokenType::HeadingAtx);
        (State::Success, left(code, false))
    } else {
        (State::Failure, left(code, false))
    }
}

/// What [`closing_sequence`] does.
pub open spec fn closing_sequence_step(
    t: TokenizerView,
    code: Code,
) -> (TokenizerView, StateFnResult) {
    if code == Code::Char('#') {
        (t.consume(), (State::Next(StateName::HeadingAtxClosingSequence), None))
    } else if code.is_space_or_tab() {
        (
            t.exit(TokenType::HeadingAtxSequence).enter(
                TokenType::HeadingAtxWhitespace,
            ).consume(),
            (State::Next(StateName::HeadingAtxFinalWhitespace), None),
        )
    } else if code.is_line_end() {
        (
            t.exit(TokenType::HeadingAtxSequence).exit(TokenType::HeadingAtx),
            (State::Success, remainder(code, false)),
        )
    } else {
        (t, (State::Failure, remainder(code, false)))
    }
}

/// In the closing sequence.
///
/// ```markdown
/// ## alpha #|#
/// ```
pub fn closing_sequence(tokenizer: &mut Tokenizer, code: Code) -> (result: StateFnResult)
    requires
        old(tokenizer)@.awaits(StateName::HeadingAtxClosingSequence, code),
    ensures
        old(tokenizer)@.stepped(
            StateName::HeadingAtxClosingSequence,
            code,
            final(tokenizer)@,
            result,
        ),
        (final(tokenizer)@, result) == closing_sequence_step(old(tokenizer)@, code),
{
    if code.is('#') {
        tokenizer.consume(code);
        (State::Next(StateName::HeadingAtxClosingSequence), None)
    } else if code.space_or_tab() {
        tokenizer.exit(TokenType::HeadingAtxSequence);
        tokenizer.enter(TokenType::HeadingAtxWhitespace);
        tokenizer.consume(code);
        (State::Next(StateName::HeadingAtxFinalWhitespace), None)
    } else if code.line_end() {
        tokenizer.exit(TokenType::HeadingAtxSequence);
        tokenizer.exit(TokenType::HeadingAtx);
        (State::Success, left(code, false))
    } else {
        (State::Failure, left(code, false))
    }
}

/// What [`final_whitespace`] does.
pub open spec fn final_whitespace_step(
    t: TokenizerView,
    code: Code,
) -> (TokenizerView, StateFnResult) {
    if code.is_space_or_tab() {
        (t.consume(), (State::Next(StateName::HeadingAtxFinalWhitespace), None))
    } else if code.is_line_end() {
        (
            t.exit(TokenType::HeadingAtxWhitespace).exit(TokenType::HeadingAtx),
            (State::Success, remainder(code, false)),
        )
    } else {
        (t, (State::Failure, remainder(code, false)))
    }
}

/// In the whitespace behind the closing sequence.
///
/// ```markdown
/// ## alpha ## |
/// ```
pub fn final_whitespace(tokenizer: &mut Tokenizer, code: Code) -> (result: StateFnResult)
    requires
        old(tokenizer)@.awaits(StateName::HeadingAtxFinalWhitespace, code),
    ensures
        old(tokenizer)@.stepped(
            StateName::HeadingAtxFinalWhitespace,
            code,
            final(tokenizer)@,
            result,
        ),
        (final(tokenizer)@, result) == final_whitespace_step(old(tokenizer)@, code),
{
    if code.space_or_tab() {
        tokenizer.consume(code);
        (State::Next(StateName::HeadingAtxFinalWhitespace), None)
    } else if code.line_end() {
        tokenizer.exit(TokenType::HeadingAtxWhitespace);
        tokenizer.exit(TokenType::HeadingAtx);
        (State::Success, left(code, false))
    } else {
        (State::Failure, left(code, false))
    }
}

/// What [`trailing_start`] does.
pub open spec fn trailing_start_step(
    t: TokenizerView,
    code: Code,
) -> (TokenizerView, StateFnResult) {
    if code.is_space_or_tab() {
        (t.consume(), (State::Next(StateName::HeadingAtxTrailingWhitespace), None))
    } else if code == Code::Char('#') {
        (t.consume(), (State::Next(StateName::HeadingAtxTrailingSequence), None))
    } else {
        (t, (State::Failure, remainder(code, false)))
    }
}

/// Looking ahead: at whitespace or a number sign that may begin the end
/// of the heading.
///
/// ```markdown
/// ## alpha| ##
/// ```
pub fn trailing_start(tokenizer: &mut Tokenizer, code: Code) -> (result: StateFnResult)
    requires
        old(tokenizer)@.awaits(StateName::HeadingAtxTrailingStart, code),
    ensures
        old(tokenizer)@.stepped(
            StateName::HeadingAtxTrailingStart,
            code,
            final(tokenizer)@,
            result,
        ),
        (final(tokenizer)@, result) == trailing_start_step(old(tokenizer)@, code),
{
    if code.space_or_tab() {
        tokenizer.consume(code);
        (State::Next(StateName::HeadingAtxTrailingWhitespace), None)
    } else if code.is('#') {
        tokenizer.consume(code);
        (State::Next(StateName::HeadingAtxTrailingSequence), None)
    } else {
        (State::Failure, left(code, false))
    }
}

/// What [`trailing_whitespace`] does.
pub open spec fn trailing_whitespace_step(
    t: TokenizerView,
    code: Code,
) -> (TokenizerView, StateFnResult) {
    if code.is_space_or_tab() {
        (t.consume(), (State::Next(StateName::HeadingAtxTrailingWhitespace), None))
    } else if code == Code::Char('#') {
        (t.consume(), (State::Next(StateName::HeadingAtxTrailingSequence), None))
    } else if code.is_line_end() {
        (t, (State::Success, remainder(code, false)))
    } else {
        (t, (State::Failure, remainder(code, false)))
    }
}

/// Looking ahead: in whitespace behind the text.
///
/// ```markdown
/// ## alpha |##
/// ```
pub fn trailing_whitespace(tokenizer: &mut Tokenizer, code: Code) -> (result: StateFnResult)
    requires
        old(tokenizer)@.awaits(StateName::HeadingAtxTrailingWhitespace, code),
    ensures
        old(tokenizer)@.stepped(
            StateName::HeadingAtxTrailingWhitespace,
            code,
            final(tokenizer)@,
            result,
        ),
        (final(tokenizer)@, result) == trailing_whitespace_step(old(tokenizer)@, code),
{
    if code.space_or_tab() {
        tokenizer.consume(code);
        (State::Next(StateName::HeadingAtxTrailingWhitespace), None)
    } else if code.is('#') {
        tokenizer.consume(code);
        (State::Next(StateName::HeadingAtxTrailingSequence), None)
    } else if code.line_end() {
        (State::Success, left(code, false))
    } else {
        (State::Failure, left(code, false))
    }
}

/// What [`trailing_sequence`] does.
pub open spec fn trailing_sequence_step(
    t: TokenizerView,
    code: Code,
) -> (TokenizerView, StateFnResult) {
    if code == Code::Char('#') {
        (t.consume(), (State::Next(StateName::HeadingAtxTrailingSequence), None))
    } else if code.is_space_or_tab() {
        (t.consume(), (State::Next(StateName::HeadingAtxTrailingEnd), None))
    } else if code.is_line_end() {
        (t, (State::Success, remainder(code, false)))
    } else {
        (t, (State::Failure, remainder(code, false)))
    }
}

/// Looking ahead: in a run of number signs.
///
/// ```markdown
/// ## alpha #|#
/// ```
pub fn trailing_sequence(tokenizer: &mut Tokenizer, code: Code) -> (result: StateFnResult)
    requires
        old(tokenizer)@.awaits(StateName::HeadingAtxTrailingSequence, code),
    ensures
        old(tokenizer)@.stepped(
            StateName::HeadingAtxTrailingSequence,
            code,
            final(tokenizer)@,
            result,
        ),
        (final(tokenizer)@, result) == trailing_sequence_step(old(tokenizer)@, code),
{
    if code.is('#') {
        tokenizer.consume(code);
        (State::Next(StateName::HeadingAtxTrailingSequence), None)
    } else if code.space_or_tab() {
        tokenizer.consume(code);
        (State::Next(StateName::HeadingAtxTrailingEnd), None)
    } else if code.line_end() {
        (State::Success, left(code, false))
    } else {
        (State::Failure, left(code, false))
    }
}

/// What [`trailing_end`] does.
pub open spec fn trailing_end_step(t: TokenizerView, code: Code) -> (TokenizerView, StateFnResult) {
    if code.is_space_or_tab() {
        (t.consume(), (State::Next(StateName::HeadingAtxTrailingEnd), None))
    } else if code.is_line_end() {
        (t, (State::Success, remainder(code, false)))
    } else {
        (t, (State::Failure, remainder(code, false)))
    }
}

/// Looking ahead: in whitespace behind a run of number signs.
///
/// ```markdown
/// ## alpha ## |
/// ```
pub fn trailing_end(tokenizer: &mut Tokenizer, code: Code) -> (result: StateFnResult)
    requires
        old(tokenizer)@.awaits(StateName::HeadingAtxTrailingEnd, code),
    ensures
        old(tokenizer)@.stepped(StateName::HeadingAtxTrailingEnd, code, final(tokenizer)@, result),
        (final(tokenizer)@, result) == trailing_end_step(old(tokenizer)@, code),
{
    if code.space_or_tab() {
        tokenizer.consume(code);
        (State::Next(StateName::HeadingAtxTrailingEnd), None)
    } else if code.line_end() {
        (State::Success, left(code, false))
    } else {
        (State::Failure, left(code, false))
    }
}

/// What the state function of `name` does, for the states of this file.
pub open spec fn step(name: StateName, t: TokenizerView, code: Code) -> (
    TokenizerView,
    StateFnResult,
) {
    match name {
        StateName::HeadingAtxStart => start_step(t, code),
        StateName::HeadingAtxSequenceOpen { rank } => sequence_open_step(t, code, rank),
        StateName::HeadingAtxBefore => before_step(t, code),
        StateName::HeadingAtxTextStart => text_start_step(t, code),
        StateName::HeadingAtxTextBegin => text_begin_step(t, code),
        StateName::HeadingAtxClosingOnly => closing_only_step(t, code),
        StateName::HeadingAtxData => data_step(t, code),
        StateName::HeadingAtxDataEnd => data_end_step(t, code),
        StateName::HeadingAtxDataGo => data_go_step(t, code),
        StateName::HeadingAtxClosingWhitespace => closing_whitespace_step(t, code),
        StateName::HeadingAtxClosingSequence => closing_sequence_step(t, code),
        StateName::HeadingAtxFinalWhitespace => final_whitespace_step(t, code),
        StateName::HeadingAtxTrailingStart => trailing_start_step(t, code),
        StateName::HeadingAtxTrailingWhitespace => trailing_whitespace_step(t, code),
        StateName::HeadingAtxTrailingSequence => trailing_sequence_step(t, code),
        StateName::HeadingAtxTrailingEnd => trailing_end_step(t, code),
        _ => (t, (State::Failure, None)),
    }
}

/// Run the state function of `name`, which is a state of this file.
pub fn call(tokenizer: &mut Tokenizer, name: StateName, code: Code) -> (result: StateFnResult)
    requires
        old(tokenizer)@.awaits(name, code),
        name.family() == Family::HeadingAtx,
    ensures
        old(tokenizer)@.stepped(name, code, final(tokenizer)@, result),
        (final(tokenizer)@, result) == step(name, old(tokenizer)@, code),
{
    match name {
        StateName::HeadingAtxStart => start(tokenizer, code),
        StateName::HeadingAtxSequenceOpen { rank } => sequence_open(tokenizer, code, rank),
        StateName::HeadingAtxBefore => before(tokenizer, code),
        StateName::HeadingAtxTextStart => text_start(tokenizer, code),
        StateName::HeadingAtxTextBegin => text_begin(tokenizer, code),
        StateName::HeadingAtxClosingOnly => closing_only(tokenizer, code),
        StateName::HeadingAtxData => data(tokenizer, code),
        StateName::HeadingAtxDataEnd => data_end(tokenizer, code),
        StateName::HeadingAtxDataGo => data_go(tokenizer, code),
        StateName::HeadingAtxClosingWhitespace => closing_whitespace(tokenizer, code),
        StateName::HeadingAtxClosingSequence => closing_sequence(tokenizer, code),
        StateName::HeadingAtxFinalWhitespace => final_whitespace(tokenizer, code),
        StateName::HeadingAtxTrailingStart => trailing_start(tokenizer, code),
        StateName::HeadingAtxTrailingWhitespace => trailing_whitespace(tokenizer, code),
        StateName::HeadingAtxTrailingSequence => trailing_sequence(tokenizer, code),
        StateName::HeadingAtxTrailingEnd => trailing_end(tokenizer, code),
        _ => (State::Failure, None),
    }
}

// ----- When a heading opens -----

/// Where the run of number signs ends that begins at `from`.
pub open spec fn sequence_end(codes: Seq<Code>, from: int) -> int
    decreases codes.len() - from,
{
    if 0 <= from < codes.len() && codes[from] == Code::Char('#') {
        sequence_end(codes, from + 1)
    } else {
        from
    }
}

/// Whether a heading opens at `start`: one to six number signs stand
/// there, and behind them whitespace or the end of the line.
pub open spec fn opens_at(codes: Seq<Code>, start: int) -> bool {
    let end = sequence_end(codes, start);
    let behind = code_at(codes, end);
    &&& 1 <= end - start <= HEADING_ATX_OPENING_FENCE_SIZE_MAX
    &&& (behind.is_line_end() || behind.is_space_or_tab())
}

/// Whether the tokenizer `t` stands behind the number sign in front of
/// `k`, in the opening sequence of a heading that began at `start`, with
/// the attempts of `first`.
pub open spec fn opening(
    first: TokenizerView,
    t: TokenizerView,
    state: State,
    start: int,
    k: int,
) -> bool {
    &&& t.index == first.start_index + k
    &&& t.start_index == first.start_index
    &&& t.consumed
    &&& t.attempts == first.attempts
    &&& t.stack == first.stack.push(TokenType::HeadingAtx).push(TokenType::HeadingAtxSequence)
    &&& state == State::Next(StateName::HeadingAtxSequenceOpen { rank: (k - start) as usize })
}

pub proof fn lemma_sequence_end(codes: Seq<Code>, from: int)
    requires
        0 <= from <= codes.len(),
    ensures
        from <= sequence_end(codes, from) <= codes.len(),
        forall|p: int|
            from <= p < sequence_end(codes, from) ==> #[trigger] codes[p] == Code::Char('#'),
        code_at(codes, sequence_end(codes, from)) != Code::Char('#'),
    decreases codes.len() - from,
{
    if from < codes.len() && codes[from] == Code::Char('#') {
        lemma_sequence_end(codes, from + 1);
    }
}

/// One move of the machine before a heading.
proof fn lemma_move_start(first: TokenizerView, codes: Seq<Code>)
    requires
        !first.consumed,
    ensures
        ({
            let (after, result) = start_step(first, first.current);
            first.reaches(State::Next(StateName::HeadingAtxStart), codes, after, result.0)
        }),
{
    let begin = State::Next(StateName::HeadingAtxStart);
    first.lemma_reaches_first(begin, codes);
    first.lemma_reaches_next(begin, codes, first, begin);
    assert(crate::machine::step(StateName::HeadingAtxStart, first, first.current) == step(
        StateName::HeadingAtxStart,
        first,
        first.current,
    ));
}

/// One move of the machine in the opening sequence.
proof fn lemma_move_open(first: TokenizerView, codes: Seq<Code>, t: TokenizerView, rank: usize)
    requires
        first.reaches(
            State::Next(StateName::HeadingAtxStart),
            codes,
            t,
            State::Next(StateName::HeadingAtxSequenceOpen { rank }),
        ),
        t.consumed,
    ensures
        ({
            let code = code_at(codes, t.index - t.start_index);
            let (after, result) = sequence_open_step(t.expect(code), code, rank);
            first.reaches(State::Next(StateName::HeadingAtxStart), codes, after, result.0)
        }),
{
    let name = StateName::HeadingAtxSequenceOpen { rank };
    let code = code_at(codes, t.index - t.start_index);
    first.lemma_reaches_next(
        State::Next(StateName::HeadingAtxStart),
        codes,
        t,
        State::Next(name),
    );
    assert(crate::machine::step(name, t.expect(code), code) == step(name, t.expect(code), code));
}

/// The machine goes through the number signs of the opening sequence one
/// by one, and counts them.
pub proof fn lemma_opening(first: TokenizerView, codes: Seq<Code>, start: int, k: int)
    requires
        first.start_index + codes.len() <= usize::MAX,
        first.index == first.start_index + start,
        first.current == codes[start],
        !first.consumed,
        0 <= start < k <= codes.len(),
        k - start <= HEADING_ATX_OPENING_FENCE_SIZE_MAX,
        forall|p: int| start <= p < k ==> #[trigger] codes[p] == Code::Char('#'),
    ensures
        exists|t: TokenizerView, state: State|
            #[trigger] first.reaches(State::Next(StateName::HeadingAtxStart), codes, t, state)
                && opening(first, t, state, start, k),
    decreases k - start,
{
    let begin = State::Next(StateName::HeadingAtxStart);
    if k == start + 1 {
        lemma_move_start(first, codes);
        assert(codes[start] == Code::Char('#'));
        let (t, result) = start_step(first, first.current);
        assert(first.reaches(begin, codes, t, result.0));
        assert(opening(first, t, result.0, start, k));
    } else {
        lemma_opening(first, codes, start, k - 1);
        let (t, state) = choose|t: TokenizerView, state: State|
            #[trigger] first.reaches(begin, codes, t, state) && opening(
                first,
                t,
                state,
                start,
                k - 1,
            );
        let rank = (k - 1 - start) as usize;
        let code = codes[k - 1];
        lemma_move_open(first, codes, t, rank);
        assert(code_at(codes, t.index - t.start_index) == code);
        assert(code == Code::Char('#'));
        let (next, result) = sequence_open_step(t.expect(code), code, rank);
        assert(first.reaches(begin, codes, next, result.0));
        assert(opening(first, next, result.0, start, k));
    }
}

/// Whether the tokenizer `t` with `state` is what the machine makes of
/// the opening of a heading, begun with `first`: no match unless one to six
/// number signs stand there, with whitespace or the end of the line behind
/// them. Where the end of the line stands behind them, the heading matches
/// in front of it, with every span closed; where whitespace does, the
/// machine goes on behind the first of it, in the heading.
pub open spec fn opened(
    first: TokenizerView,
    t: TokenizerView,
    state: State,
    codes: Seq<Code>,
) -> bool {
    let start = first.index - first.start_index;
    let end = sequence_end(codes, start);
    &&& t.attempts == first.attempts
    &&& if !opens_at(codes, start) {
        state == State::Failure
    } else if code_at(codes, end).is_line_end() {
        &&& state == State::Success
        &&& t.index == first.start_index + end
        &&& t.stack == first.stack
    } else {
        &&& state == State::Next(StateName::HeadingAtxBefore)
        &&& t.index == first.start_index + end + 1
        &&& t.stack == first.stack.push(TokenType::HeadingAtx).push(
            TokenType::HeadingAtxWhitespace,
        )
    }
}

/// What the machine does behind the number signs that it counted.
proof fn lemma_sequence_open(t: TokenizerView, code: Code, rank: usize, stack: Seq<TokenType>)
    requires
        t.stack == stack.push(TokenType::HeadingAtx).push(TokenType::HeadingAtxSequence),
        t.current == code,
        t.index < usize::MAX,
        rank >= 1,
        code != Code::Char('#') || rank >= HEADING_ATX_OPENING_FENCE_SIZE_MAX,
    ensures
        ({
            let (after, result) = sequence_open_step(t, code, rank);
            &&& after.attempts == t.attempts
            &&& if code.is_line_end() {
                result.0 == State::Success && after.index == t.index && after.stack == stack
            } else if code.is_space_or_tab() {
                &&& result.0 == State::Next(StateName::HeadingAtxBefore)
                &&& after.index == t.index + 1
                &&& after.stack == stack.push(TokenType::HeadingAtx).push(
                    TokenType::HeadingAtxWhitespace,
                )
            } else {
                result.0 == State::Failure
            }
        }),
{
    let (after, result) = sequence_open_step(t, code, rank);
    if code.is_line_end() {
        assert(after.stack =~= stack);
    } else if code.is_space_or_tab() {
        assert(after.stack =~= stack.push(TokenType::HeadingAtx).push(
            TokenType::HeadingAtxWhitespace,
        ));
    }
}

/// When a heading opens: what the machine makes of the opening of a
/// heading, begun at a place in the input, is told by the number signs that
/// stand there and by what stands behind them. The places count from the
/// first of `codes`, whose index is the one that `first` began with.
pub proof fn lemma_heading_opens(first: TokenizerView, codes: Seq<Code>)
    requires
        first.start_index + codes.len() < usize::MAX,
        first.start_index <= first.index,
        first.index - first.start_index <= codes.len(),
        first.current == code_at(codes, first.index - first.start_index),
        !first.consumed,
    ensures
        exists|t: TokenizerView, state: State|
            #[trigger] first.reaches(State::Next(StateName::HeadingAtxStart), codes, t, state)
                && opened(first, t, state, codes),
{
    let begin = State::Next(StateName::HeadingAtxStart);
    let start = first.index - first.start_index;
    let end = sequence_end(codes, start);
    lemma_sequence_end(codes, start);
    if end == start {
        lemma_move_start(first, codes);
        let (t, result) = start_step(first, first.current);
        assert(first.reaches(begin, codes, t, result.0));
        assert(opened(first, t, result.0, codes));
    } else {
        let stop = if end - start <= HEADING_ATX_OPENING_FENCE_SIZE_MAX {
            end
        } else {
            start + HEADING_ATX_OPENING_FENCE_SIZE_MAX
        };
        lemma_opening(first, codes, start, stop);
        let (t, state) = choose|t: TokenizerView, state: State|
            #[trigger] first.reaches(begin, codes, t, state) && opening(
                first,
                t,
                state,
                start,
                stop,
            );
        let code = code_at(codes, stop);
        let fed = t.expect(code);
        let rank = (stop - start) as usize;
        lemma_move_open(first, codes, t, rank);
        lemma_sequence_open(fed, code, rank, first.stack);
        let (next, result) = sequence_open_step(fed, code, rank);
        assert(first.reaches(begin, codes, next, result.0));
        assert(opened(first, next, result.0, codes));
    }
}

} // verus!
