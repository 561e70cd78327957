//! A thematic break: three or more of `*`, `-` or `_`, all the same, with
//! spaces and tabs among them at will, up to the end of the line.

use vstd::prelude::*;
use crate::code::Code;
use crate::event::TokenType;
use crate::state::{Family, State, StateFnResult, StateName};
use crate::tokenizer::{Tokenizer, TokenizerView, left, remainder};

verus! {

/// The least number of markers in a thematic break.
pub const THEMATIC_BREAK_MARKER_COUNT_MIN: usize = 3;

/// The character of `code`, if a thematic break can be made of it.
pub open spec fn marker(code: Code) -> Option<char> {
    match code {
        Code::Char(c) => if c == '*' || c == '-' || c == '_' {
            Some(c)
        } else {
            None
        },
        _ => None,
    }
}

/// The character of `code`, if a thematic break can be made of it.
pub fn marker_of(code: Code) -> (found: Option<char>)
    ensures
        found == marker(code),
{
    match code {
        Code::Char(c) => if c == '*' || c == '-' || c == '_' {
            Some(c)
        } else {
            None
        },
        _ => None,
    }
}

/// What [`start`] does.
pub open spec fn start_step(t: TokenizerView, code: Code) -> (TokenizerView, StateFnResult) {
    match marker(code) {
        Some(marker) => at_break_step(t.enter(TokenType::ThematicBreak), code, marker, 0),
        None => (t, (State::Failure, remainder(code, false))),
    }
}

/// What [`at_break`] does.
pub open spec fn at_break_step(t: TokenizerView, code: Code, marker: char, size: usize) -> (
    TokenizerView,
    StateFnResult,
) {
    if code == Code::Char(marker) {
        (
            t.enter(TokenType::ThematicBreakSequence).consume(),
            (
                State::Next(
                    StateName::ThematicBreakSequence { marker, size: (size + 1) as usize },
                ),
                None,
            ),
        )
    } else if code.is_space_or_tab() {
        (
            t.enter(TokenType::ThematicBreakWhitespace).consume(),
            (State::Next(StateName::ThematicBreakWhitespace { marker, size }), None),
        )
    } else if code.is_line_end() && size >= THEMATIC_BREAK_MARKER_COUNT_MIN {
        (t.exit(TokenType::ThematicBreak), (State::Success, remainder(code, false)))
    } else {
        (t, (State::Failure, remainder(code, false)))
    }
}

/// What [`sequence`] does.
pub open spec fn sequence_step(t: TokenizerView, code: Code, marker: char, size: usize) -> (
    TokenizerView,
    StateFnResult,
) {
    if code == Code::Char(marker) {
        (
            t.consume(),
            (
                State::Next(
                    StateName::ThematicBreakSequence { marker, size: (size + 1) as usize },
                ),
                None,
            ),
        )
    } else {
        at_break_step(t.exit(TokenType::ThematicBreakSequence), code, marker, size)
    }
}

/// What [`whitespace`] does.
pub open spec fn whitespace_step(t: TokenizerView, code: Code, marker: char, size: usize) -> (
    TokenizerView,
    StateFnResult,
) {
    if code.is_space_or_tab() {
        (t.consume(), (State::Next(StateName::ThematicBreakWhitespace { marker, size }), None))
    } else {
        at_break_step(t.exit(TokenType::ThematicBreakWhitespace), code, marker, size)
    }
}

/// Before a thematic break.
///
/// ```markdown
/// |***
/// ```
pub fn start(tokenizer: &mut Tokenizer, code: Code) -> (result: StateFnResult)
    requires
        old(tokenizer)@.awaits(StateName::ThematicBreakStart, code),
    ensures
        old(tokenizer)@.stepped(StateName::ThematicBreakStart, code, final(tokenizer)@, result),
        (final(tokenizer)@, result) == start_step(old(tokenizer)@, code),
{
    match marker_of(code) {
        Some(marker) => {
            tokenizer.enter(TokenType::ThematicBreak);
            at_break(tokenizer, code, marker, 0)
        },
        None => (State::Failure, left(code, false)),
    }
}

/// After something, but before something else.
///
/// ```markdown
/// |***
/// *| * *
/// * |* *
/// ```
pub fn at_break(tokenizer: &mut Tokenizer, code: Code, marker: char, size: usize) -> (result:
    StateFnResult)
    requires
        old(tokenizer)@.awaits(StateName::ThematicBreakAtBreak { marker, size }, code),
    ensures
        old(tokenizer)@.stepped(
            StateName::ThematicBreakAtBreak { marker, size },
            code,
            final(tokenizer)@,
            result,
        ),
        (final(tokenizer)@, result) == at_break_step(old(tokenizer)@, code, marker, size),
{
    if code.is(marker) {
        tokenizer.enter(TokenType::ThematicBreakSequence);
        tokenizer.consume(code);
        (State::Next(StateName::ThematicBreakSequence { marker, size: size + 1 }), None)
    } else if code.space_or_tab() {
        tokenizer.enter(TokenType::ThematicBreakWhitespace);
        tokenizer.consume(code);
        (State::Next(StateName::ThematicBreakWhitespace { marker, size }), None)
    } else if code.line_end() && size >= THEMATIC_BREAK_MARKER_COUNT_MIN {
        tokenizer.exit(TokenType::ThematicBreak);
        (State::Success, left(code, false))
    } else {
        (State::Failure, left(code, false))
    }
}

/// In a sequence of markers.
///
/// ```markdown
/// |***
/// *|**
/// **|*
/// ```
pub fn sequence(tokenizer: &mut Tokenizer, code: Code, marker: char, size: usize) -> (result:
    StateFnResult)
    requires
        old(tokenizer)@.awaits(StateName::ThematicBreakSequence { marker, size }, code),
    ensures
        old(tokenizer)@.stepped(
            StateName::ThematicBreakSequence { marker, size },
            code,
            final(tokenizer)@,
            result,
        ),
        (final(tokenizer)@, result) == sequence_step(old(tokenizer)@, code, marker, size),
{
    if code.is(marker) {
        tokenizer.consume(code);
        (State::Next(StateName::ThematicBreakSequence { marker, size: size + 1 }), None)
    } else {
        tokenizer.exit(TokenType::ThematicBreakSequence);
        at_break(tokenizer, code, marker, size)
    }
}

/// In whitespace.
///
/// ```markdown
/// * |* *
/// * | * *
/// ```
pub fn whitespace(tokenizer: &mut Tokenizer, code: Code, marker: char, size: usize) -> (result:
    StateFnResult)
    requires
        old(tokenizer)@.awaits(StateName::ThematicBreakWhitespace { marker, size }, code),
    ensures
        old(tokenizer)@.stepped(
            StateName::ThematicBreakWhitespace { marker, size },
            code,
            final(tokenizer)@,
            result,
        ),
        (final(tokenizer)@, result) == whitespace_step(old(tokenizer)@, code, marker, size),
{
    if code.space_or_tab() {
        tokenizer.consume(code);
        (State::Next(StateName::ThematicBreakWhitespace { marker, size }), None)
    } else {
        tokenizer.exit(TokenType::ThematicBreakWhitespace);
        at_break(tokenizer, code, marker, size)
    }
}

/// What the state function of `name` does, for the states of this file.
pub open spec fn step(name: StateName, t: TokenizerView, code: Code) -> (
    TokenizerView,
    StateFnResult,
) {
    match name {
        StateName::ThematicBreakStart => start_step(t, code),
        StateName::ThematicBreakAtBreak { marker, size } => at_break_step(t, code, marker, size),
        StateName::ThematicBreakSequence { marker, size } => sequence_step(t, code, marker, size),
        StateName::ThematicBreakWhitespace { marker, size } =>
            whitespace_step(t, code, marker, size),
        _ => (t, (State::Failure, None)),
    }
}

/// Run the state function of `name`, which is a state of this file.
pub fn call(tokenizer: &mut Tokenizer, name: StateName, code: Code) -> (result: StateFnResult)
    requires
        old(tokenizer)@.awaits(name, code),
        name.family() == Family::ThematicBreak,
    ensures
        old(tokenizer)@.stepped(name, code, final(tokenizer)@, result),
        (final(tokenizer)@, result) == step(name, old(tokenizer)@, code),
{
    match name {
        StateName::ThematicBreakStart => start(tokenizer, code),
        StateName::ThematicBreakAtBreak { marker, size } => at_break(tokenizer, code, marker, size),
        StateName::ThematicBreakSequence { marker, size } =>
            sequence(tokenizer, code, marker, size),
        StateName::ThematicBreakWhitespace { marker, size } =>
            whitespace(tokenizer, code, marker, size),
        _ => (State::Failure, None),
    }
}

// ----- What the machine makes of a line -----

/// Number of codes from `from` up to `to` that are the character `marker`.
pub open spec fn markers(codes: Seq<Code>, from: int, to: int, marker: char) -> nat
    decreases to - from,
{
    if from >= to {
        0
    } else if codes[to - 1] == Code::Char(marker) {
        markers(codes, from, to - 1, marker) + 1
    } else {
        markers(codes, from, to - 1, marker)
    }
}

/// Whether `code` can stand in a thematic break of `marker`.
pub open spec fn belongs(code: Code, marker: char) -> bool {
    code == Code::Char(marker) || code.is_space_or_tab()
}

/// Where the codes end that can stand in a thematic break of `marker`,
/// from `from` on and below `to`.
pub open spec fn fitting_end(codes: Seq<Code>, from: int, to: int, marker: char) -> int
    decreases to - from,
{
    if 0 <= from < to <= codes.len() && belongs(codes[from], marker) {
        fitting_end(codes, from + 1, to, marker)
    } else {
        from
    }
}

/// Whether the codes from `start` up to `end` are a thematic break: the
/// first is `*`, `-` or `_`, the others are the same character or spaces and
/// tabs, and the character stands there three times or more.
pub open spec fn is_thematic_break(codes: Seq<Code>, start: int, end: int) -> bool {
    &&& 0 <= start < end <= codes.len()
    &&& marker(codes[start]) matches Some(m)
    &&& fitting_end(codes, start, end, m) == end
    &&& markers(codes, start, end, m) >= THEMATIC_BREAK_MARKER_COUNT_MIN
}

/// Whether the tokenizer `t` stands behind the code in front of `k`, in a
/// thematic break of `marker` that began at `start`, with the attempts of
/// `first`.
pub open spec fn scanning(
    first: TokenizerView,
    t: TokenizerView,
    state: State,
    codes: Seq<Code>,
    start: int,
    k: int,
    marker: char,
) -> bool {
    let size = markers(codes, start, k, marker) as usize;
    &&& t.index == first.start_index + k
    &&& t.start_index == first.start_index
    &&& t.consumed
    &&& t.attempts == first.attempts
    &&& state == if codes[k - 1] == Code::Char(marker) {
        State::Next(StateName::ThematicBreakSequence { marker, size })
    } else {
        State::Next(StateName::ThematicBreakWhitespace { marker, size })
    }
}

pub proof fn lemma_markers_bound(codes: Seq<Code>, from: int, to: int, marker: char)
    requires
        from <= to,
    ensures
        markers(codes, from, to, marker) <= to - from,
    decreases to - from,
{
    if from < to {
        lemma_markers_bound(codes, from, to - 1, marker);
    }
}

pub proof fn lemma_fitting_end(codes: Seq<Code>, from: int, to: int, marker: char)
    requires
        0 <= from <= to <= codes.len(),
    ensures
        from <= fitting_end(codes, from, to, marker) <= to,
        forall|p: int|
            from <= p < fitting_end(codes, from, to, marker) ==> belongs(#[trigger] codes[p], marker),
        fitting_end(codes, from, to, marker) < to ==> !belongs(
            codes[fitting_end(codes, from, to, marker)],
            marker,
        ),
    decreases to - from,
{
    if from < to && belongs(codes[from], marker) {
        lemma_fitting_end(codes, from + 1, to, marker);
    }
}

/// One move of the machine in a thematic break.
proof fn lemma_move(first: TokenizerView, codes: Seq<Code>, t: TokenizerView, name: StateName)
    requires
        first.reaches(State::Next(StateName::ThematicBreakStart), codes, t, State::Next(name)),
        name.family() == Family::ThematicBreak,
    ensures
        ({
            let fed = if t.consumed {
                t.expect(crate::machine::code_at(codes, t.index - t.start_index))
            } else {
                t
            };
            let (after, result) = step(name, fed, fed.current);
            first.reaches(State::Next(StateName::ThematicBreakStart), codes, after, result.0)
        }),
{
    let fed = if t.consumed {
        t.expect(crate::machine::code_at(codes, t.index - t.start_index))
    } else {
        t
    };
    first.lemma_reaches_next(
        State::Next(StateName::ThematicBreakStart),
        codes,
        t,
        State::Next(name),
    );
    assert(crate::machine::step(name, fed, fed.current) == step(name, fed, fed.current));
}

/// The machine goes through the codes that can stand in a thematic break
/// one by one, and counts the markers.
pub proof fn lemma_scan(
    first: TokenizerView,
    codes: Seq<Code>,
    start: int,
    k: int,
    marker: char,
)
    requires
        first.start_index + codes.len() <= usize::MAX,
        first.index == first.start_index + start,
        first.current == codes[start],
        !first.consumed,
        0 <= start < k <= codes.len(),
        codes[start] == Code::Char(marker),
        self::marker(codes[start]) == Some(marker),
        forall|p: int| start <= p < k ==> belongs(#[trigger] codes[p], marker),
    ensures
        exists|t: TokenizerView, state: State|
            #[trigger] first.reaches(State::Next(StateName::ThematicBreakStart), codes, t, state)
                && scanning(first, t, state, codes, start, k, marker),
    decreases k - start,
{
    let begin = State::Next(StateName::ThematicBreakStart);
    if k == start + 1 {
        first.lemma_reaches_first(begin, codes);
        lemma_move(first, codes, first, StateName::ThematicBreakStart);
        let (t, result) = step(StateName::ThematicBreakStart, first, first.current);
        assert(first.reaches(begin, codes, t, result.0));
        assert(markers(codes, start, start, marker) == 0);
        assert(markers(codes, start, k, marker) == 1);
        assert(scanning(first, t, result.0, codes, start, k, marker));
    } else {
        lemma_scan(first, codes, start, k - 1, marker);
        let (t, state) = choose|t: TokenizerView, state: State|
            #[trigger] first.reaches(begin, codes, t, state) && scanning(
                first,
                t,
                state,
                codes,
                start,
                k - 1,
                marker,
            );
        let size = markers(codes, start, k - 1, marker) as usize;
        lemma_markers_bound(codes, start, k - 1, marker);
        let code = codes[k - 1];
        let fed = t.expect(code);
        assert(crate::machine::code_at(codes, t.index - t.start_index) == code);
        assert(belongs(code, marker));
        let name = if codes[k - 2] == Code::Char(marker) {
            StateName::ThematicBreakSequence { marker, size }
        } else {
            StateName::ThematicBreakWhitespace { marker, size }
        };
        lemma_move(first, codes, t, name);
        let (next, result) = step(name, fed, code);
        assert(first.reaches(begin, codes, next, result.0));
        assert(scanning(first, next, result.0, codes, start, k, marker));
    }
}

/// Whether the tokenizer `t` with `state` is what the machine makes of a
/// line that ends at `end`, begun with `first` at the first code of the
/// line: a match in front of the line ending if the line is a thematic
/// break, and no match if it is none.
pub open spec fn judged(
    first: TokenizerView,
    t: TokenizerView,
    state: State,
    codes: Seq<Code>,
    end: int,
) -> bool {
    &&& t.attempts == first.attempts
    &&& if is_thematic_break(codes, first.index - first.start_index, end) {
        state == State::Success && t.index == first.start_index + end
    } else {
        state == State::Failure
    }
}

/// What the machine makes of a line: begun at the first code of a line
/// that ends at `end`, the thematic break matches in front of the line
/// ending if the line is a thematic break, and does not match if it is
/// none. `end` counts from the first of `codes`, whose index is the one
/// that `first` began with.
pub proof fn lemma_thematic_break(first: TokenizerView, codes: Seq<Code>, end: int)
    requires
        first.start_index + codes.len() < usize::MAX,
        first.start_index <= first.index,
        first.index - first.start_index <= end <= codes.len(),
        first.current == crate::machine::code_at(codes, first.index - first.start_index),
        !first.consumed,
        crate::machine::code_at(codes, end).is_line_end(),
        forall|p: int|
            first.index - first.start_index <= p < end ==> !(#[trigger] codes[p]).is_line_end(),
    ensures
        exists|t: TokenizerView, state: State|
            #[trigger] first.reaches(State::Next(StateName::ThematicBreakStart), codes, t, state)
                && judged(first, t, state, codes, end),
{
    let begin = State::Next(StateName::ThematicBreakStart);
    let start = first.index - first.start_index;
    let code = first.current;
    match marker(code) {
        None => {
            first.lemma_reaches_first(begin, codes);
            lemma_move(first, codes, first, StateName::ThematicBreakStart);
            let (t, result) = step(StateName::ThematicBreakStart, first, code);
            assert(first.reaches(begin, codes, t, result.0));
            assert(result.0 == State::Failure);
            assert(judged(first, t, result.0, codes, end));
        },
        Some(m) => {
            assert(start < end);
            let stop = fitting_end(codes, start, end, m);
            lemma_fitting_end(codes, start, end, m);
            assert(belongs(codes[start], m));
            assert(stop > start) by {
                lemma_fitting_end(codes, start + 1, end, m);
            }
            lemma_scan(first, codes, start, stop, m);
            let (t, state) = choose|t: TokenizerView, state: State|
                #[trigger] first.reaches(begin, codes, t, state) && scanning(
                    first,
                    t,
                    state,
                    codes,
                    start,
                    stop,
                    m,
                );
            let size = markers(codes, start, stop, m) as usize;
            lemma_markers_bound(codes, start, stop, m);
            let last = crate::machine::code_at(codes, stop);
            let fed = t.expect(last);
            assert(!belongs(last, m));
            let name = if codes[stop - 1] == Code::Char(m) {
                StateName::ThematicBreakSequence { marker: m, size }
            } else {
                StateName::ThematicBreakWhitespace { marker: m, size }
            };
            lemma_move(first, codes, t, name);
            let (next, result) = step(name, fed, last);
            assert(first.reaches(begin, codes, next, result.0));
            if stop == end {
                assert(result.0 == if size >= THEMATIC_BREAK_MARKER_COUNT_MIN {
                    State::Success
                } else {
                    State::Failure
                });
            } else {
                assert(!last.is_line_end());
                assert(result.0 == State::Failure);
            }
            assert(judged(first, next, result.0, codes, end));
        },
    }
}

} // verus!
