//! Fenced code: a fence of three or more grave accents or tildes, with an
//! info string behind it at will, then the lines of code, up to a closing
//! fence of the same character that is as long as the opening fence at
//! least, or up to the end of the input.

use vstd::prelude::*;
use crate::code::{Code, TAB_SIZE};
use crate::construct::partial_whitespace;
use crate::event::{Event, TokenType};
use crate::state::{Family, State, StateFnResult, StateName};
use crate::tokenizer::{AttemptKind, Tokenizer, TokenizerView, left, remainder};
use crate::util::span::{from_exit_event, span_of};

verus! {

/// The least number of markers in a fence.
pub const CODE_FENCED_SEQUENCE_SIZE_MIN: usize = 3;

/// Number of codes of whitespace that `events` ends with.
pub open spec fn tail_whitespace(events: Seq<Event>) -> int {
    if events.len() > 0 && events.last().token_type == TokenType::Whitespace {
        span_of(events, events.len() - 1).size()
    } else {
        0
    }
}

/// The character of `code`, if a fence can be made of it.
pub open spec fn fence_marker(code: Code) -> Option<char> {
    match code {
        Code::Char(c) => if c == '`' || c == '~' {
            Some(c)
        } else {
            None
        },
        _ => None,
    }
}

/// The character of `code`, if a fence can be made of it.
pub fn marker_of(code: Code) -> (found: Option<char>)
    ensures
        found == fence_marker(code),
{
    match code {
        Code::Char(c) => if c == '`' || c == '~' {
            Some(c)
        } else {
            None
        },
        _ => None,
    }
}

/// What [`start`] does.
pub open spec fn start_step(t: TokenizerView, code: Code) -> (TokenizerView, StateFnResult) {
    partial_whitespace::start_step(
        t.enter(TokenType::CodeFenced).enter(TokenType::CodeFencedFence).attempt(
            AttemptKind::Attempt,
            Seq::empty(),
            State::Next(StateName::CodeFencedBeforeSequenceOpen),
            State::Next(StateName::CodeFencedBeforeSequenceOpen),
        ),
        code,
        TokenType::Whitespace,
    )
}

/// Before fenced code.
///
/// ```markdown
/// |~~~js
/// console.log(1);
/// ~~~
/// ```
pub fn start(tokenizer: &mut Tokenizer, code: Code) -> (result: StateFnResult)
    requires
        old(tokenizer)@.awaits(StateName::CodeFencedStart, code),
    ensures
        old(tokenizer)@.stepped(StateName::CodeFencedStart, code, final(tokenizer)@, result),
        (final(tokenizer)@, result) == start_step(old(tokenizer)@, code),
{
    tokenizer.enter(TokenType::CodeFenced);
    tokenizer.enter(TokenType::CodeFencedFence);
    tokenizer.attempt(
        State::Next(StateName::CodeFencedBeforeSequenceOpen),
        State::Next(StateName::CodeFencedBeforeSequenceOpen),
    );
    partial_whitespace::start(tokenizer, code, TokenType::Whitespace)
}

/// What [`before_sequence_open`] does.
pub open spec fn before_sequence_open_step(t: TokenizerView, code: Code) -> (
    TokenizerView,
    StateFnResult,
) {
    match fence_marker(code) {
        Some(marker) => if tail_whitespace(t.events) < TAB_SIZE {
            sequence_open_step(
                t.enter(TokenType::CodeFencedFenceSequence),
                code,
                marker,
                0,
                tail_whitespace(t.events) as usize,
            )
        } else {
            (t, (State::Failure, remainder(code, false)))
        },
        None => (t, (State::Failure, remainder(code, false))),
    }
}

/// Behind the whitespace in front of the opening fence, if there was any.
///
/// ```markdown
/// |~~~js
/// console.log(1);
/// ~~~
/// ```
pub fn before_sequence_open(tokenizer: &mut Tokenizer, code: Code) -> (result: StateFnResult)
    requires
        old(tokenizer)@.awaits(StateName::CodeFencedBeforeSequenceOpen, code),
    ensures
        old(tokenizer)@.stepped(
            StateName::CodeFencedBeforeSequenceOpen,
            code,
            final(tokenizer)@,
            result,
        ),
        (final(tokenizer)@, result) == before_sequence_open_step(old(tokenizer)@, code),
{
    let mut prefix: usize = 0;
    let length = tokenizer.events.len();
    if length > 0 {
        let whitespace = match tokenizer.events[length - 1].token_type {
            TokenType::Whitespace => true,
            _ => false,
        };
        if whitespace {
            prefix = from_exit_event(&tokenizer.events, length - 1).len();
        }
    }
    match marker_of(code) {
        Some(marker) => {
            if prefix < TAB_SIZE {
                tokenizer.enter(TokenType::CodeFencedFenceSequence);
                sequence_open(tokenizer, code, marker, 0, prefix)
            } else {
                (State::Failure, left(code, false))
            }
        },
        None => (State::Failure, left(code, false)),
    }
}

/// What [`sequence_open`] does.
pub open spec fn sequence_open_step(
    t: TokenizerView,
    code: Code,
    marker: char,
    size: usize,
    prefix: usize,
) -> (
    TokenizerView,
    StateFnResult,
) {
    if code == Code::Char(marker) {
        (
            t.consume(),
            (
                State::Next(
                    StateName::CodeFencedSequenceOpen { marker, size: (size + 1) as usize, prefix },
                ),
                None,
            ),
        )
    } else if size < CODE_FENCED_SEQUENCE_SIZE_MIN {
        (t, (State::Failure, remainder(code, false)))
    } else if code.is_space_or_tab() {
        (
            t.exit(TokenType::CodeFencedFenceSequence).enter(
                TokenType::CodeFencedFenceWhitespace,
            ).consume(),
            (State::Next(StateName::CodeFencedInfoBeforeWhitespace { marker, size, prefix }), None),
        )
    } else {
        info_before_step(t.exit(TokenType::CodeFencedFenceSequence), code, marker, size, prefix)
    }
}

/// In the opening fence.
///
/// ```markdown
/// ~|~~js
/// console.log(1);
/// ~~~
/// ```
pub fn sequence_open(
    tokenizer: &mut Tokenizer,
    code: Code,
    marker: char,
    size: usize,
    prefix: usize,
) -> (result:
    StateFnResult)
    requires
        old(tokenizer)@.awaits(StateName::CodeFencedSequenceOpen { marker, size, prefix }, code),
    ensures
        old(tokenizer)@.stepped(
            StateName::CodeFencedSequenceOpen { marker, size, prefix },
            code,
            final(tokenizer)@,
            result,
        ),
        (final(tokenizer)@, result) == sequence_open_step(
            old(tokenizer)@,
            code,
            marker,
            size,
            prefix,
        ),
{
    if code.is(marker) {
        tokenizer.consume(code);
        (State::Next(StateName::CodeFencedSequenceOpen { marker, size: size + 1, prefix }), None)
    } else if size < CODE_FENCED_SEQUENCE_SIZE_MIN {
        (State::Failure, left(code, false))
    } else if code.space_or_tab() {
        tokenizer.exit(TokenType::CodeFencedFenceSequence);
        tokenizer.enter(TokenType::CodeFencedFenceWhitespace);
        tokenizer.consume(code);
        (State::Next(StateName::CodeFencedInfoBeforeWhitespace { marker, size, prefix }), None)
    } else {
        tokenizer.exit(TokenType::CodeFencedFenceSequence);
        info_before(tokenizer, code, marker, size, prefix)
    }
}

/// What [`info_before_whitespace`] does.
pub open spec fn info_before_whitespace_step(
    t: TokenizerView,
    code: Code,
    marker: char,
    size: usize,
    prefix: usize,
) -> (
    TokenizerView,
    StateFnResult,
) {
    if code.is_space_or_tab() {
        (
            t.consume(),
            (State::Next(StateName::CodeFencedInfoBeforeWhitespace { marker, size, prefix }), None),
        )
    } else {
        info_before_step(t.exit(TokenType::CodeFencedFenceWhitespace), code, marker, size, prefix)
    }
}

/// In the whitespace behind the opening fence.
///
/// ```markdown
/// ~~~ |js
/// ```
pub fn info_before_whitespace(
    tokenizer: &mut Tokenizer,
    code: Code,
    marker: char,
    size: usize,
    prefix: usize,
) -> (result:
    StateFnResult)
    requires
        old(tokenizer)@.awaits(
            StateName::CodeFencedInfoBeforeWhitespace { marker, size, prefix },
            code,
        ),
    ensures
        old(tokenizer)@.stepped(
            StateName::CodeFencedInfoBeforeWhitespace { marker, size, prefix },
            code,
            final(tokenizer)@,
            result,
        ),
        (final(tokenizer)@, result) == info_before_whitespace_step(
            old(tokenizer)@,
            code,
            marker,
            size,
            prefix,
        ),
{
    if code.space_or_tab() {
        tokenizer.consume(code);
        (State::Next(StateName::CodeFencedInfoBeforeWhitespace { marker, size, prefix }), None)
    } else {
        tokenizer.exit(TokenType::CodeFencedFenceWhitespace);
        info_before(tokenizer, code, marker, size, prefix)
    }
}

/// What [`info_before`] does.
pub open spec fn info_before_step(
    t: TokenizerView,
    code: Code,
    marker: char,
    size: usize,
    prefix: usize,
) -> (
    TokenizerView,
    StateFnResult,
) {
    if code.is_line_end() {
        at_break_step(t.exit(TokenType::CodeFencedFence), code, marker, size, prefix)
    } else if code == Code::Char('`') && marker == '`' {
        (t, (State::Failure, remainder(code, false)))
    } else {
        (
            t.enter(TokenType::CodeFencedFenceInfo).consume(),
            (State::Next(StateName::CodeFencedInfo { marker, size, prefix }), None),
        )
    }
}

/// Behind the opening fence, in front of the info string.
///
/// ```markdown
/// ~~~|js
/// ```
pub fn info_before(
    tokenizer: &mut Tokenizer,
    code: Code,
    marker: char,
    size: usize,
    prefix: usize,
) -> (result:
    StateFnResult)
    requires
        old(tokenizer)@.awaits(StateName::CodeFencedInfoBefore { marker, size, prefix }, code),
    ensures
        old(tokenizer)@.stepped(
            StateName::CodeFencedInfoBefore { marker, size, prefix },
            code,
            final(tokenizer)@,
            result,
        ),
        (final(tokenizer)@, result) == info_before_step(
            old(tokenizer)@,
            code,
            marker,
            size,
            prefix,
        ),
{
    if code.line_end() {
        tokenizer.exit(TokenType::CodeFencedFence);
        at_break(tokenizer, code, marker, size, prefix)
    } else if code.is('`') && marker == '`' {
        (State::Failure, left(code, false))
    } else {
        tokenizer.enter(TokenType::CodeFencedFenceInfo);
        tokenizer.consume(code);
        (State::Next(StateName::CodeFencedInfo { marker, size, prefix }), None)
    }
}

/// What [`info`] does.
pub open spec fn info_step(
    t: TokenizerView,
    code: Code,
    marker: char,
    size: usize,
    prefix: usize,
) -> (
    TokenizerView,
    StateFnResult,
) {
    if code.is_line_end() {
        at_break_step(
            t.exit(TokenType::CodeFencedFenceInfo).exit(TokenType::CodeFencedFence),
            code,
            marker,
            size,
            prefix,
        )
    } else if code.is_space_or_tab() {
        (
            t.exit(TokenType::CodeFencedFenceInfo).enter(
                TokenType::CodeFencedFenceWhitespace,
            ).consume(),
            (State::Next(StateName::CodeFencedMetaBeforeWhitespace { marker, size, prefix }), None),
        )
    } else if code == Code::Char('`') && marker == '`' {
        (t, (State::Failure, remainder(code, false)))
    } else {
        (t.consume(), (State::Next(StateName::CodeFencedInfo { marker, size, prefix }), None))
    }
}

/// In the info string.
///
/// ```markdown
/// ~~~j|s
/// ```
pub fn info(
    tokenizer: &mut Tokenizer,
    code: Code,
    marker: char,
    size: usize,
    prefix: usize,
) -> (result:
    StateFnResult)
    requires
        old(tokenizer)@.awaits(StateName::CodeFencedInfo { marker, size, prefix }, code),
    ensures
        old(tokenizer)@.stepped(
            StateName::CodeFencedInfo { marker, size, prefix },
            code,
            final(tokenizer)@,
            result,
        ),
        (final(tokenizer)@, result) == info_step(old(tokenizer)@, code, marker, size, prefix),
{
    if code.line_end() {
        tokenizer.exit(TokenType::CodeFencedFenceInfo);
        tokenizer.exit(TokenType::CodeFencedFence);
        at_break(tokenizer, code, marker, size, prefix)
    } else if code.space_or_tab() {
        tokenizer.exit(TokenType::CodeFencedFenceInfo);
        tokenizer.enter(TokenType::CodeFencedFenceWhitespace);
        tokenizer.consume(code);
        (State::Next(StateName::CodeFencedMetaBeforeWhitespace { marker, size, prefix }), None)
    } else if code.is('`') && marker == '`' {
        (State::Failure, left(code, false))
    } else {
        tokenizer.consume(code);
        (State::Next(StateName::CodeFencedInfo { marker, size, prefix }), None)
    }
}

/// What [`meta_before_whitespace`] does.
pub open spec fn meta_before_whitespace_step(
    t: TokenizerView,
    code: Code,
    marker: char,
    size: usize,
    prefix: usize,
) -> (
    TokenizerView,
    StateFnResult,
) {
    if code.is_space_or_tab() {
        (
            t.consume(),
            (State::Next(StateName::CodeFencedMetaBeforeWhitespace { marker, size, prefix }), None),
        )
    } else if code.is_line_end() {
        at_break_step(
            t.exit(TokenType::CodeFencedFenceWhitespace).exit(TokenType::CodeFencedFence),
            code,
            marker,
            size,
            prefix,
        )
    } else if code == Code::Char('`') && marker == '`' {
        (t, (State::Failure, remainder(code, false)))
    } else {
        (
            t.exit(
                TokenType::CodeFencedFenceWhitespace,
            ).enter(TokenType::CodeFencedFenceMeta).consume(),
            (State::Next(StateName::CodeFencedMeta { marker, size, prefix }), None),
        )
    }
}

/// In the whitespace behind the info string.
///
/// ```markdown
/// ~~~js |alpha
/// ```
pub fn meta_before_whitespace(
    tokenizer: &mut Tokenizer,
    code: Code,
    marker: char,
    size: usize,
    prefix: usize,
) -> (result:
    StateFnResult)
    requires
        old(tokenizer)@.awaits(
            StateName::CodeFencedMetaBeforeWhitespace { marker, size, prefix },
            code,
        ),
    ensures
        old(tokenizer)@.stepped(
            StateName::CodeFencedMetaBeforeWhitespace { marker, size, prefix },
            code,
            final(tokenizer)@,
            result,
        ),
        (final(tokenizer)@, result) == meta_before_whitespace_step(
            old(tokenizer)@,
            code,
            marker,
            size,
            prefix,
        ),
{
    if code.space_or_tab() {
        tokenizer.consume(code);
        (State::Next(StateName::CodeFencedMetaBeforeWhitespace { marker, size, prefix }), None)
    } else if code.line_end() {
        tokenizer.exit(TokenType::CodeFencedFenceWhitespace);
        tokenizer.exit(TokenType::CodeFencedFence);
        at_break(tokenizer, code, marker, size, prefix)
    } else if code.is('`') && marker == '`' {
        (State::Failure, left(code, false))
    } else {
        tokenizer.exit(TokenType::CodeFencedFenceWhitespace);
        tokenizer.enter(TokenType::CodeFencedFenceMeta);
        tokenizer.consume(code);
        (State::Next(StateName::CodeFencedMeta { marker, size, prefix }), None)
    }
}

/// What [`meta`] does.
pub open spec fn meta_step(
    t: TokenizerView,
    code: Code,
    marker: char,
    size: usize,
    prefix: usize,
) -> (
    TokenizerView,
    StateFnResult,
) {
    if code.is_line_end() {
        at_break_step(
            t.exit(TokenType::CodeFencedFenceMeta).exit(TokenType::CodeFencedFence),
            code,
            marker,
            size,
            prefix,
        )
    } else if code == Code::Char('`') && marker == '`' {
        (t, (State::Failure, remainder(code, false)))
    } else {
        (t.consume(), (State::Next(StateName::CodeFencedMeta { marker, size, prefix }), None))
    }
}

/// In what stands behind the info string.
///
/// ```markdown
/// ~~~js al|pha
/// ```
pub fn meta(
    tokenizer: &mut Tokenizer,
    code: Code,
    marker: char,
    size: usize,
    prefix: usize,
) -> (result:
    StateFnResult)
    requires
        old(tokenizer)@.awaits(StateName::CodeFencedMeta { marker, size, prefix }, code),
    ensures
        old(tokenizer)@.stepped(
            StateName::CodeFencedMeta { marker, size, prefix },
            code,
            final(tokenizer)@,
            result,
        ),
        (final(tokenizer)@, result) == meta_step(old(tokenizer)@, code, marker, size, prefix),
{
    if code.line_end() {
        tokenizer.exit(TokenType::CodeFencedFenceMeta);
        tokenizer.exit(TokenType::CodeFencedFence);
        at_break(tokenizer, code, marker, size, prefix)
    } else if code.is('`') && marker == '`' {
        (State::Failure, left(code, false))
    } else {
        tokenizer.consume(code);
        (State::Next(StateName::CodeFencedMeta { marker, size, prefix }), None)
    }
}

/// What [`at_break`] does.
pub open spec fn at_break_step(
    t: TokenizerView,
    code: Code,
    marker: char,
    size: usize,
    prefix: usize,
) -> (
    TokenizerView,
    StateFnResult,
) {
    if code == Code::Eof {
        after_step(t, code)
    } else {
        close_start_step(
            t.attempt(
                AttemptKind::Attempt,
                Seq::empty(),
                State::Next(StateName::CodeFencedAfter),
                State::Next(StateName::CodeFencedContentBefore { marker, size, prefix }),
            ),
            code,
            marker,
            size,
        )
    }
}

/// At the end of a line of fenced code: the end of the input ends the code,
/// and so does a closing fence in the next line.
///
/// ```markdown
/// ~~~js|
/// console.log(1);|
/// ~~~
/// ```
pub fn at_break(
    tokenizer: &mut Tokenizer,
    code: Code,
    marker: char,
    size: usize,
    prefix: usize,
) -> (result:
    StateFnResult)
    requires
        old(tokenizer)@.awaits(StateName::CodeFencedAtBreak { marker, size, prefix }, code),
    ensures
        old(tokenizer)@.stepped(
            StateName::CodeFencedAtBreak { marker, size, prefix },
            code,
            final(tokenizer)@,
            result,
        ),
        (final(tokenizer)@, result) == at_break_step(old(tokenizer)@, code, marker, size, prefix),
{
    if code.at_end() {
        after(tokenizer, code)
    } else {
        tokenizer.attempt(
            State::Next(StateName::CodeFencedAfter),
            State::Next(StateName::CodeFencedContentBefore { marker, size, prefix }),
        );
        close_start(tokenizer, code, marker, size)
    }
}

/// What [`content_before`] does.
pub open spec fn content_before_step(
    t: TokenizerView,
    code: Code,
    marker: char,
    size: usize,
    prefix: usize,
) -> (
    TokenizerView,
    StateFnResult,
) {
    (
        t.enter(TokenType::LineEnding).consume().exit(TokenType::LineEnding),
        (State::Next(StateName::CodeFencedContentStart { marker, size, prefix }), None),
    )
}

/// At a line ending inside fenced code.
///
/// ```markdown
/// ~~~js|
/// console.log(1);
/// ```
pub fn content_before(
    tokenizer: &mut Tokenizer,
    code: Code,
    marker: char,
    size: usize,
    prefix: usize,
) -> (result:
    StateFnResult)
    requires
        old(tokenizer)@.awaits(StateName::CodeFencedContentBefore { marker, size, prefix }, code),
    ensures
        old(tokenizer)@.stepped(
            StateName::CodeFencedContentBefore { marker, size, prefix },
            code,
            final(tokenizer)@,
            result,
        ),
        (final(tokenizer)@, result) == content_before_step(
            old(tokenizer)@,
            code,
            marker,
            size,
            prefix,
        ),
{
    tokenizer.enter(TokenType::LineEnding);
    tokenizer.consume(code);
    tokenizer.exit(TokenType::LineEnding);
    (State::Next(StateName::CodeFencedContentStart { marker, size, prefix }), None)
}

/// What [`content_start`] does.
pub open spec fn content_start_step(
    t: TokenizerView,
    code: Code,
    marker: char,
    size: usize,
    prefix: usize,
) -> (
    TokenizerView,
    StateFnResult,
) {
    if code.is_space_or_tab() && prefix > 0 {
        (
            t.enter(TokenType::Whitespace).consume(),
            (
                State::Next(StateName::CodeFencedContentPrefix { marker, size, prefix, seen: 1 }),
                None,
            ),
        )
    } else {
        content_begin_step(t, code, marker, size, prefix)
    }
}

/// At the start of a line of code: as much whitespace as stands in front of
/// the opening fence is no part of the code.
///
/// ```markdown
///   ~~~js
///   |console.log(1);
/// ```
pub fn content_start(
    tokenizer: &mut Tokenizer,
    code: Code,
    marker: char,
    size: usize,
    prefix: usize,
) -> (result:
    StateFnResult)
    requires
        old(tokenizer)@.awaits(StateName::CodeFencedContentStart { marker, size, prefix }, code),
    ensures
        old(tokenizer)@.stepped(
            StateName::CodeFencedContentStart { marker, size, prefix },
            code,
            final(tokenizer)@,
            result,
        ),
        (final(tokenizer)@, result) == content_start_step(
            old(tokenizer)@,
            code,
            marker,
            size,
            prefix,
        ),
{
    if code.space_or_tab() && prefix > 0 {
        tokenizer.enter(TokenType::Whitespace);
        tokenizer.consume(code);
        (State::Next(StateName::CodeFencedContentPrefix { marker, size, prefix, seen: 1 }), None)
    } else {
        content_begin(tokenizer, code, marker, size, prefix)
    }
}

/// What [`content_prefix`] does.
pub open spec fn content_prefix_step(
    t: TokenizerView,
    code: Code,
    marker: char,
    size: usize,
    prefix: usize,
    seen: usize,
) -> (
    TokenizerView,
    StateFnResult,
) {
    if code.is_space_or_tab() && seen < prefix {
        (
            t.consume(),
            (
                State::Next(
                    StateName::CodeFencedContentPrefix { marker, size, prefix, seen: (seen + 1) as usize },
                ),
                None,
            ),
        )
    } else {
        content_begin_step(t.exit(TokenType::Whitespace), code, marker, size, prefix)
    }
}

/// In the whitespace in front of a line of code.
///
/// ```markdown
///   ~~~js
///  | console.log(1);
/// ```
pub fn content_prefix(
    tokenizer: &mut Tokenizer,
    code: Code,
    marker: char,
    size: usize,
    prefix: usize,
    seen: usize,
) -> (result:
    StateFnResult)
    requires
        old(tokenizer)@.awaits(
            StateName::CodeFencedContentPrefix { marker, size, prefix, seen },
            code,
        ),
    ensures
        old(tokenizer)@.stepped(
            StateName::CodeFencedContentPrefix { marker, size, prefix, seen },
            code,
            final(tokenizer)@,
            result,
        ),
        (final(tokenizer)@, result) == content_prefix_step(
            old(tokenizer)@,
            code,
            marker,
            size,
            prefix,
            seen,
        ),
{
    if code.space_or_tab() && seen < prefix {
        tokenizer.consume(code);
        (
            State::Next(
                StateName::CodeFencedContentPrefix { marker, size, prefix, seen: seen + 1 },
            ),
            None,
        )
    } else {
        tokenizer.exit(TokenType::Whitespace);
        content_begin(tokenizer, code, marker, size, prefix)
    }
}

/// What [`content_begin`] does.
pub open spec fn content_begin_step(
    t: TokenizerView,
    code: Code,
    marker: char,
    size: usize,
    prefix: usize,
) -> (
    TokenizerView,
    StateFnResult,
) {
    if code.is_line_end() {
        at_break_step(t, code, marker, size, prefix)
    } else {
        (
            t.enter(TokenType::CodeFlowChunk).consume(),
            (State::Next(StateName::CodeFencedContent { marker, size, prefix }), None),
        )
    }
}

/// In front of the code of a line.
///
/// ```markdown
/// ~~~js
/// |console.log(1);
/// ```
pub fn content_begin(
    tokenizer: &mut Tokenizer,
    code: Code,
    marker: char,
    size: usize,
    prefix: usize,
) -> (result:
    StateFnResult)
    requires
        old(tokenizer)@.awaits(StateName::CodeFencedContentBegin { marker, size, prefix }, code),
    ensures
        old(tokenizer)@.stepped(
            StateName::CodeFencedContentBegin { marker, size, prefix },
            code,
            final(tokenizer)@,
            result,
        ),
        (final(tokenizer)@, result) == content_begin_step(
            old(tokenizer)@,
            code,
            marker,
            size,
            prefix,
        ),
{
    if code.line_end() {
        at_break(tokenizer, code, marker, size, prefix)
    } else {
        tokenizer.enter(TokenType::CodeFlowChunk);
        tokenizer.consume(code);
        (State::Next(StateName::CodeFencedContent { marker, size, prefix }), None)
    }
}

/// What [`content`] does.
pub open spec fn content_step(
    t: TokenizerView,
    code: Code,
    marker: char,
    size: usize,
    prefix: usize,
) -> (
    TokenizerView,
    StateFnResult,
) {
    if code.is_line_end() {
        at_break_step(t.exit(TokenType::CodeFlowChunk), code, marker, size, prefix)
    } else {
        (t.consume(), (State::Next(StateName::CodeFencedContent { marker, size, prefix }), None))
    }
}

/// In the code of a line.
///
/// ```markdown
/// ~~~js
/// console|.log(1);
/// ```
pub fn content(
    tokenizer: &mut Tokenizer,
    code: Code,
    marker: char,
    size: usize,
    prefix: usize,
) -> (result:
    StateFnResult)
    requires
        old(tokenizer)@.awaits(StateName::CodeFencedContent { marker, size, prefix }, code),
    ensures
        old(tokenizer)@.stepped(
            StateName::CodeFencedContent { marker, size, prefix },
            code,
            final(tokenizer)@,
            result,
        ),
        (final(tokenizer)@, result) == content_step(old(tokenizer)@, code, marker, size, prefix),
{
    if code.line_end() {
        tokenizer.exit(TokenType::CodeFlowChunk);
        at_break(tokenizer, code, marker, size, prefix)
    } else {
        tokenizer.consume(code);
        (State::Next(StateName::CodeFencedContent { marker, size, prefix }), None)
    }
}

/// What [`after`] does.
pub open spec fn after_step(t: TokenizerView, code: Code) -> (TokenizerView, StateFnResult) {
    (t.exit(TokenType::CodeFenced), (State::Success, remainder(code, false)))
}

/// After fenced code.
///
/// ```markdown
/// ~~~js
/// console.log(1);
/// ~~~|
/// ```
pub fn after(tokenizer: &mut Tokenizer, code: Code) -> (result: StateFnResult)
    requires
        old(tokenizer)@.awaits(StateName::CodeFencedAfter, code),
    ensures
        old(tokenizer)@.stepped(StateName::CodeFencedAfter, code, final(tokenizer)@, result),
        (final(tokenizer)@, result) == after_step(old(tokenizer)@, code),
{
    tokenizer.exit(TokenType::CodeFenced);
    (State::Success, left(code, false))
}

/// What [`close_start`] does.
pub open spec fn close_start_step(t: TokenizerView, code: Code, marker: char, size: usize) -> (
    TokenizerView,
    StateFnResult,
) {
    if code.is_eol() {
        (
            t.enter(TokenType::LineEnding).consume().exit(TokenType::LineEnding),
            (State::Next(StateName::CodeFencedCloseBefore { marker, size }), None),
        )
    } else {
        (t, (State::Failure, remainder(code, false)))
    }
}

/// At the line ending in front of what may be the closing fence.
///
/// ```markdown
/// ~~~js
/// console.log(1);|
/// ~~~
/// ```
pub fn close_start(tokenizer: &mut Tokenizer, code: Code, marker: char, size: usize) -> (result:
    StateFnResult)
    requires
        old(tokenizer)@.awaits(StateName::CodeFencedCloseStart { marker, size }, code),
    ensures
        old(tokenizer)@.stepped(
            StateName::CodeFencedCloseStart { marker, size },
            code,
            final(tokenizer)@,
            result,
        ),
        (final(tokenizer)@, result) == close_start_step(old(tokenizer)@, code, marker, size),
{
    if code.eol() {
        tokenizer.enter(TokenType::LineEnding);
        tokenizer.consume(code);
        tokenizer.exit(TokenType::LineEnding);
        (State::Next(StateName::CodeFencedCloseBefore { marker, size }), None)
    } else {
        (State::Failure, left(code, false))
    }
}

/// What [`close_before`] does.
pub open spec fn close_before_step(t: TokenizerView, code: Code, marker: char, size: usize) -> (
    TokenizerView,
    StateFnResult,
) {
    if code.is_space_or_tab() {
        (
            t.enter(TokenType::Whitespace).consume(),
            (State::Next(StateName::CodeFencedClosePrefix { marker, size, seen: 1 }), None),
        )
    } else if code == Code::Char(marker) {
        (
            t.enter(TokenType::CodeFencedFence).enter(TokenType::CodeFencedFenceSequence).consume(),
            (State::Next(StateName::CodeFencedCloseSequence { marker, size, count: 1 }), None),
        )
    } else {
        (t, (State::Failure, remainder(code, false)))
    }
}

/// At the start of the line that may hold the closing fence.
///
/// ```markdown
/// ~~~js
/// console.log(1);
/// |~~~
/// ```
pub fn close_before(tokenizer: &mut Tokenizer, code: Code, marker: char, size: usize) -> (result:
    StateFnResult)
    requires
        old(tokenizer)@.awaits(StateName::CodeFencedCloseBefore { marker, size }, code),
    ensures
        old(tokenizer)@.stepped(
            StateName::CodeFencedCloseBefore { marker, size },
            code,
            final(tokenizer)@,
            result,
        ),
        (final(tokenizer)@, result) == close_before_step(old(tokenizer)@, code, marker, size),
{
    if code.space_or_tab() {
        tokenizer.enter(TokenType::Whitespace);
        tokenizer.consume(code);
        (State::Next(StateName::CodeFencedClosePrefix { marker, size, seen: 1 }), None)
    } else if code.is(marker) {
        tokenizer.enter(TokenType::CodeFencedFence);
        tokenizer.enter(TokenType::CodeFencedFenceSequence);
        tokenizer.consume(code);
        (State::Next(StateName::CodeFencedCloseSequence { marker, size, count: 1 }), None)
    } else {
        (State::Failure, left(code, false))
    }
}

/// What [`close_prefix`] does.
pub open spec fn close_prefix_step(
    t: TokenizerView,
    code: Code,
    marker: char,
    size: usize,
    seen: usize,
) -> (
    TokenizerView,
    StateFnResult,
) {
    if code.is_space_or_tab() && seen + 1 < TAB_SIZE {
        (
            t.consume(),
            (
                State::Next(
                    StateName::CodeFencedClosePrefix { marker, size, seen: (seen + 1) as usize },
                ),
                None,
            ),
        )
    } else if code == Code::Char(marker) {
        (
            t.exit(TokenType::Whitespace).enter(TokenType::CodeFencedFence).enter(
                TokenType::CodeFencedFenceSequence,
            ).consume(),
            (State::Next(StateName::CodeFencedCloseSequence { marker, size, count: 1 }), None),
        )
    } else {
        (t, (State::Failure, remainder(code, false)))
    }
}

/// In the whitespace in front of what may be the closing fence: three
/// columns at most.
///
/// ```markdown
/// ~~~js
/// console.log(1);
///  | ~~~
/// ```
pub fn close_prefix(
    tokenizer: &mut Tokenizer,
    code: Code,
    marker: char,
    size: usize,
    seen: usize,
) -> (result:
    StateFnResult)
    requires
        old(tokenizer)@.awaits(StateName::CodeFencedClosePrefix { marker, size, seen }, code),
    ensures
        old(tokenizer)@.stepped(
            StateName::CodeFencedClosePrefix { marker, size, seen },
            code,
            final(tokenizer)@,
            result,
        ),
        (final(tokenizer)@, result) == close_prefix_step(old(tokenizer)@, code, marker, size, seen),
{
    if code.space_or_tab() && seen < TAB_SIZE - 1 {
        tokenizer.consume(code);
        (State::Next(StateName::CodeFencedClosePrefix { marker, size, seen: seen + 1 }), None)
    } else if code.is(marker) {
        tokenizer.exit(TokenType::Whitespace);
        tokenizer.enter(TokenType::CodeFencedFence);
        tokenizer.enter(TokenType::CodeFencedFenceSequence);
        tokenizer.consume(code);
        (State::Next(StateName::CodeFencedCloseSequence { marker, size, count: 1 }), None)
    } else {
        (State::Failure, left(code, false))
    }
}

/// What [`close_sequence`] does.
pub open spec fn close_sequence_step(
    t: TokenizerView,
    code: Code,
    marker: char,
    size: usize,
    count: usize,
) -> (
    TokenizerView,
    StateFnResult,
) {
    if code == Code::Char(marker) {
        (
            t.consume(),
            (
                State::Next(
                    StateName::CodeFencedCloseSequence { marker, size, count: (count + 1) as usize },
                ),
                None,
            ),
        )
    } else if count < size {
        (t, (State::Failure, remainder(code, false)))
    } else if code.is_space_or_tab() {
        (
            t.exit(TokenType::CodeFencedFenceSequence).enter(
                TokenType::CodeFencedFenceWhitespace,
            ).consume(),
            (State::Next(StateName::CodeFencedCloseAfter), None),
        )
    } else if code.is_line_end() {
        (
            t.exit(TokenType::CodeFencedFenceSequence).exit(TokenType::CodeFencedFence),
            (State::Success, remainder(code, false)),
        )
    } else {
        (t, (State::Failure, remainder(code, false)))
    }
}

/// In what may be the closing fence.
///
/// ```markdown
/// ~~~js
/// console.log(1);
/// ~|~~
/// ```
pub fn close_sequence(
    tokenizer: &mut Tokenizer,
    code: Code,
    marker: char,
    size: usize,
    count: usize,
) -> (result:
    StateFnResult)
    requires
        old(tokenizer)@.awaits(StateName::CodeFencedCloseSequence { marker, size, count }, code),
    ensures
        old(tokenizer)@.stepped(
            StateName::CodeFencedCloseSequence { marker, size, count },
            code,
            final(tokenizer)@,
            result,
        ),
        (final(tokenizer)@, result) == close_sequence_step(
            old(tokenizer)@,
            code,
            marker,
            size,
            count,
        ),
{
    if code.is(marker) {
        tokenizer.consume(code);
        (State::Next(StateName::CodeFencedCloseSequence { marker, size, count: count + 1 }), None)
    } else if count < size {
        (State::Failure, left(code, false))
    } else if code.space_or_tab() {
        tokenizer.exit(TokenType::CodeFencedFenceSequence);
        tokenizer.enter(TokenType::CodeFencedFenceWhitespace);
        tokenizer.consume(code);
        (State::Next(StateName::CodeFencedCloseAfter), None)
    } else if code.line_end() {
        tokenizer.exit(TokenType::CodeFencedFenceSequence);
        tokenizer.exit(TokenType::CodeFencedFence);
        (State::Success, left(code, false))
    } else {
        (State::Failure, left(code, false))
    }
}

/// What [`close_after`] does.
pub open spec fn close_after_step(t: TokenizerView, code: Code) -> (TokenizerView, StateFnResult) {
    if code.is_space_or_tab() {
        (t.consume(), (State::Next(StateName::CodeFencedCloseAfter), None))
    } else if code.is_line_end() {
        (
            t.exit(TokenType::CodeFencedFenceWhitespace).exit(TokenType::CodeFencedFence),
            (State::Success, remainder(code, false)),
        )
    } else {
        (t, (State::Failure, remainder(code, false)))
    }
}

/// In the whitespace behind the closing fence.
///
/// ```markdown
/// ~~~js
/// console.log(1);
/// ~~~ |
/// ```
pub fn close_after(tokenizer: &mut Tokenizer, code: Code) -> (result: StateFnResult)
    requires
        old(tokenizer)@.awaits(StateName::CodeFencedCloseAfter, code),
    ensures
        old(tokenizer)@.stepped(StateName::CodeFencedCloseAfter, code, final(tokenizer)@, result),
        (final(tokenizer)@, result) == close_after_step(old(tokenizer)@, code),
{
    if code.space_or_tab() {
        tokenizer.consume(code);
        (State::Next(StateName::CodeFencedCloseAfter), None)
    } else if code.line_end() {
        tokenizer.exit(TokenType::CodeFencedFenceWhitespace);
        tokenizer.exit(TokenType::CodeFencedFence);
        (State::Success, left(code, false))
    } else {
        (State::Failure, left(code, false))
    }
}

/// What the state function of `name` does, for the states of this file.
pub open spec fn step(name: StateName, t: TokenizerView, code: Code) -> (
    TokenizerView,
    StateFnResult,
) {
    match name {
        StateName::CodeFencedStart => start_step(t, code),
        StateName::CodeFencedBeforeSequenceOpen => before_sequence_open_step(t, code),
        StateName::CodeFencedSequenceOpen { marker, size, prefix } =>
            sequence_open_step(t, code, marker, size, prefix),
        StateName::CodeFencedInfoBeforeWhitespace { marker, size, prefix } =>
            info_before_whitespace_step(t, code, marker, size, prefix),
        StateName::CodeFencedInfoBefore { marker, size, prefix } =>
            info_before_step(t, code, marker, size, prefix),
        StateName::CodeFencedInfo { marker, size, prefix } =>
            info_step(t, code, marker, size, prefix),
        StateName::CodeFencedMetaBeforeWhitespace { marker, size, prefix } =>
            meta_before_whitespace_step(t, code, marker, size, prefix),
        StateName::CodeFencedMeta { marker, size, prefix } =>
            meta_step(t, code, marker, size, prefix),
        StateName::CodeFencedAtBreak { marker, size, prefix } =>
            at_break_step(t, code, marker, size, prefix),
        StateName::CodeFencedContentBefore { marker, size, prefix } =>
            content_before_step(t, code, marker, size, prefix),
        StateName::CodeFencedContentStart { marker, size, prefix } =>
            content_start_step(t, code, marker, size, prefix),
        StateName::CodeFencedContentPrefix { marker, size, prefix, seen } =>
            content_prefix_step(t, code, marker, size, prefix, seen),
        StateName::CodeFencedContentBegin { marker, size, prefix } =>
            content_begin_step(t, code, marker, size, prefix),
        StateName::CodeFencedContent { marker, size, prefix } =>
            content_step(t, code, marker, size, prefix),
        StateName::CodeFencedAfter => after_step(t, code),
        StateName::CodeFencedCloseStart { marker, size } => close_start_step(t, code, marker, size),
        StateName::CodeFencedCloseBefore { marker, size } =>
            close_before_step(t, code, marker, size),
        StateName::CodeFencedClosePrefix { marker, size, seen } =>
            close_prefix_step(t, code, marker, size, seen),
        StateName::CodeFencedCloseSequence { marker, size, count } =>
            close_sequence_step(t, code, marker, size, count),
        StateName::CodeFencedCloseAfter => close_after_step(t, code),
        _ => (t, (State::Failure, None)),
    }
}

/// Run the state function of `name`, which is a state of this file.
pub fn call(tokenizer: &mut Tokenizer, name: StateName, code: Code) -> (result: StateFnResult)
    requires
        old(tokenizer)@.awaits(name, code),
        name.family() == Family::CodeFenced,
    ensures
        old(tokenizer)@.stepped(name, code, final(tokenizer)@, result),
        (final(tokenizer)@, result) == step(name, old(tokenizer)@, code),
{
    match name {
        StateName::CodeFencedStart => start(tokenizer, code),
        StateName::CodeFencedBeforeSequenceOpen => before_sequence_open(tokenizer, code),
        StateName::CodeFencedSequenceOpen { marker, size, prefix } =>
            sequence_open(tokenizer, code, marker, size, prefix),
        StateName::CodeFencedInfoBeforeWhitespace { marker, size, prefix } =>
            info_before_whitespace(tokenizer, code, marker, size, prefix),
        StateName::CodeFencedInfoBefore { marker, size, prefix } =>
            info_before(tokenizer, code, marker, size, prefix),
        StateName::CodeFencedInfo { marker, size, prefix } =>
            info(tokenizer, code, marker, size, prefix),
        StateName::CodeFencedMetaBeforeWhitespace { marker, size, prefix } =>
            meta_before_whitespace(tokenizer, code, marker, size, prefix),
        StateName::CodeFencedMeta { marker, size, prefix } =>
            meta(tokenizer, code, marker, size, prefix),
        StateName::CodeFencedAtBreak { marker, size, prefix } =>
            at_break(tokenizer, code, marker, size, prefix),
        StateName::CodeFencedContentBefore { marker, size, prefix } =>
            content_before(tokenizer, code, marker, size, prefix),
        StateName::CodeFencedContentStart { marker, size, prefix } =>
            content_start(tokenizer, code, marker, size, prefix),
        StateName::CodeFencedContentPrefix { marker, size, prefix, seen } =>
            content_prefix(tokenizer, code, marker, size, prefix, seen),
        StateName::CodeFencedContentBegin { marker, size, prefix } =>
            content_begin(tokenizer, code, marker, size, prefix),
        StateName::CodeFencedContent { marker, size, prefix } =>
            content(tokenizer, code, marker, size, prefix),
        StateName::CodeFencedAfter => after(tokenizer, code),
        StateName::CodeFencedCloseStart { marker, size } =>
            close_start(tokenizer, code, marker, size),
        StateName::CodeFencedCloseBefore { marker, size } =>
            close_before(tokenizer, code, marker, size),
        StateName::CodeFencedClosePrefix { marker, size, seen } =>
            close_prefix(tokenizer, code, marker, size, seen),
        StateName::CodeFencedCloseSequence { marker, size, count } =>
            close_sequence(tokenizer, code, marker, size, count),
        StateName::CodeFencedCloseAfter => close_after(tokenizer, code),
        _ => (State::Failure, None),
    }
}

} // verus!
