//! The flow content type.
//!
//! **Flow** represents the sections, such as headings, code, and content,
//! which are parsed per line.
//! An example is HTML, which has a certain starting condition (such as
//! `<script>` on its own line), then continues for a while, until an end
//! condition is found (such as `</style>`).
//! If that line with an end condition is never found, that flow goes until
//! the end.
//!
//! The constructs found in flow are:
//!
//! *   [Blank line][crate::construct::blank_line]
//! *   [Code (fenced)][crate::construct::code_fenced]
//! *   [Code (indented)][crate::construct::code_indented]
//! *   [Definition][crate::construct::definition]
//! *   [Heading (atx)][crate::construct::heading_atx]
//! *   [Heading (setext)][crate::construct::heading_setext]
//! *   [HTML (flow)][crate::construct::html_flow]
//! *   [Thematic break][crate::construct::thematic_break]

use vstd::prelude::*;
use crate::code::{Code, TAB_SIZE, proper};
use crate::construct::{blank_line, code_fenced, code_indented, heading_atx, partial_whitespace};
use crate::event::{
    Event, EventKind, Point, TokenType, balanced, chunkless, covers, leafy, linked, placed,
    lemma_traced_placed, lemma_traced_rising, positive, rising, tiled, traced,
};
use crate::machine::code_at;
use crate::matching::{lemma_balanced_matched, matched};
use crate::resolve::{flow_resolvers, resolve, resolved_with, resolvers};
use crate::state::{Family, State, StateFnResult, StateName};
use crate::subtokenize::{
    behind, carried, lemma_placed_behind, lemma_placed_roomy, resolved, roomy, subtokenize,
};
use crate::tokenizer::{AttemptKind, Tokenizer, TokenizerView, left, remainder};
use crate::util::span::{from_exit_event, span_of};

verus! {

/// Whether the places and the indexes of `codes` fit into machine words
/// when the first code has the index `index` and stands at `point`.
pub open spec fn fits(codes: Seq<Code>, point: Point, index: usize) -> bool {
    &&& index + codes.len() <= usize::MAX
    &&& point.line + codes.len() <= usize::MAX
    &&& point.column + codes.len() <= usize::MAX
    &&& point.offset + 4 * codes.len() <= usize::MAX
}

/// The tokenizer in front of `codes`, before the flow machine makes its
/// first move.
pub open spec fn flow_begin(codes: Seq<Code>, point: Point, index: usize) -> TokenizerView {
    TokenizerView::initial(point, index).bounded((index + codes.len()) as usize).expect(
        code_at(codes, 0),
    )
}

/// The flow machine over `codes` after `n` moves.
pub open spec fn flow_after(codes: Seq<Code>, point: Point, index: usize, n: nat) -> (
    TokenizerView,
    State,
) {
    flow_begin(codes, point, index).run(State::Next(StateName::FlowStart), codes, true, n)
}

/// Whether `events` are what the flow machine has written when it has
/// come to stand over `codes`.
pub open spec fn flow_tokenized(
    codes: Seq<Code>,
    point: Point,
    index: usize,
    events: Seq<Event>,
) -> bool {
    exists|n: nat|
        {
            let (t, state) = #[trigger] flow_after(codes, point, index, n);
            t.halted(state, codes, true) && state == State::Success && t.events == events
        }
}

/// Turn `codes` as the flow content type into events, without going into
/// the chunks of content. The first of `codes` has the index `index` and
/// stands at `point`.
pub fn tokenize(codes: &[Code], point: Point, index: usize) -> (events: Vec<Event>)
    requires
        proper(codes@),
        fits(codes@, point, index),
    ensures
        flow_tokenized(codes@, point, index, events@),
        balanced(events@),
        matched(events@),
        covers(events@, index as int, index + codes@.len()),
        linked(events@),
        leafy(events@),
        placed(events@, point, index as int, index + codes@.len()),
        traced(events@, point, index as int, codes@),
{
    let mut tokenizer = Tokenizer::new(point, index);
    proof {
        assert(tokenizer@.opened() =~= Seq::empty());
        assert(tokenizer@.fed =~= codes@.take(0));
    }
    let state = tokenizer.feed(codes, StateName::FlowStart, true);
    proof {
        tokenizer@.lemma_finished();
        assert(codes@.take(codes@.len() as int) =~= codes@);
        let n = choose|n: nat|
            (tokenizer@, state) == #[trigger] flow_begin(codes@, point, index).run(
                State::Next(StateName::FlowStart),
                codes@,
                true,
                n,
            );
        assert((tokenizer@, state) == flow_after(codes@, point, index, n));
        lemma_balanced_matched(tokenizer@.events);
    }
    tokenizer.events
}

/// The events that the flow machine writes over `codes`.
pub open spec fn flow_chunks(codes: Seq<Code>, point: Point, index: usize) -> Seq<Event> {
    choose|events: Seq<Event>| flow_tokenized(codes, point, index, events)
}

/// What the flow machine writes over `codes`, with every chain of chunks
/// replaced by the events of the content that it holds.
pub open spec fn flow_content(codes: Seq<Code>, point: Point, index: usize) -> Seq<Event> {
    resolved(flow_chunks(codes, point, index), codes, index as int, 0)
}

/// The events of `codes` as flow: what the flow machine writes, with the
/// content in the place of the chunks, and resolved.
pub open spec fn flow_events(codes: Seq<Code>, point: Point, index: usize) -> Seq<Event> {
    resolved_with(
        flow_resolvers(),
        flow_content(codes, point, index),
        codes,
        index as int,
        flow_resolvers().len(),
    )
}

/// The flow machine writes one log of events over given codes, and no
/// other.
pub proof fn lemma_flow_chunks(codes: Seq<Code>, point: Point, index: usize, events: Seq<Event>)
    requires
        flow_tokenized(codes, point, index, events),
    ensures
        events == flow_chunks(codes, point, index),
{
    let other = flow_chunks(codes, point, index);
    let n = choose|n: nat|
        {
            let (t, state) = #[trigger] flow_after(codes, point, index, n);
            t.halted(state, codes, true) && state == State::Success && t.events == events
        };
    let m = choose|m: nat|
        {
            let (t, state) = #[trigger] flow_after(codes, point, index, m);
            t.halted(state, codes, true) && state == State::Success && t.events == other
        };
    flow_begin(codes, point, index).lemma_halted_unique(
        State::Next(StateName::FlowStart),
        codes,
        true,
        n,
        m,
    );
}

/// Tokenizing is a function of the input: any two logs that the flow
/// machine can be said to have written over the same codes are the same,
/// and so is what becomes of them when the chunks are replaced.
pub proof fn lemma_flow_deterministic(
    codes: Seq<Code>,
    point: Point,
    index: usize,
    first: Seq<Event>,
    second: Seq<Event>,
)
    requires
        flow_tokenized(codes, point, index, first),
        flow_tokenized(codes, point, index, second),
    ensures
        first == second,
        resolved(first, codes, index as int, 0) == flow_content(codes, point, index),
        resolved(second, codes, index as int, 0) == flow_content(codes, point, index),
{
    lemma_flow_chunks(codes, point, index, first);
    lemma_flow_chunks(codes, point, index, second);
}

/// Turn `codes` as the flow content type into events.
///
/// `codes` are the codes to tokenize. The first of them has the index
/// `index` and stands at `point`; the leaves of the events lie one behind
/// the other from `index` up to `index + codes.len()`.
pub fn flow(codes: &[Code], point: Point, index: usize) -> (events: Vec<Event>)
    requires
        proper(codes@),
        fits(codes@, point, index),
    ensures
        events@ == flow_events(codes@, point, index),
        balanced(events@),
        matched(events@),
        covers(events@, index as int, index + codes@.len()),
        chunkless(events@),
        traced(events@, point, index as int, codes@),
        placed(events@, point, index as int, index + codes@.len()),
        rising(events@),
        point.line >= 1 && point.column >= 1 ==> positive(events@),
{
    let mut events = tokenize(codes, point, index);
    let mut done = false;
    proof {
        lemma_flow_chunks(codes@, point, index, events@);
        let first = Event {
            kind: EventKind::Enter,
            token_type: TokenType::Content,
            point,
            index,
            previous: None,
            next: None,
        };
        lemma_placed_roomy(events@, first, index + codes@.len(), index + codes@.len());
        lemma_placed_behind(events@, point, index as int, index + codes@.len());
    }
    while !done
        invariant
            proper(codes@),
            balanced(events@),
            tiled(events@),
            roomy(events@, index + codes@.len()),
            behind(events@, index as int),
            covers(events@, index as int, index + codes@.len()),
            traced(events@, point, index as int, codes@),
            if done {
                events@ == flow_content(codes@, point, index) && chunkless(events@)
            } else {
                events@ == flow_chunks(codes@, point, index) && leafy(events@)
            },
        decreases
            if done {
                0int
            } else {
                1int
            },
    {
        let result = subtokenize(events, codes, index);
        events = result.0;
        done = result.1;
    }
    let events = resolve(&resolvers(), events, codes, index);
    proof {
        lemma_traced_placed(events@, point, index as int, codes@);
        lemma_traced_rising(events@, point, index as int, codes@);
        lemma_balanced_matched(events@);
    }
    events
}

/// What a state does that stands in front of a line ending or the end of
/// the input, and marks the line ending as `token_type`.
pub open spec fn line_end_step(t: TokenizerView, code: Code, token_type: TokenType) -> (
    TokenizerView,
    StateFnResult,
) {
    if code == Code::Eof {
        (t, (State::Success, None))
    } else {
        (t.enter(token_type).consume().exit(token_type), (State::Next(StateName::FlowStart), None))
    }
}

/// What [`start`] does.
pub open spec fn start_step(t: TokenizerView, code: Code) -> (TokenizerView, StateFnResult) {
    if code == Code::Eof {
        (t, (State::Success, None))
    } else {
        blank_line::start_step(
            t.attempt(
                AttemptKind::Attempt,
                Seq::empty(),
                State::Next(StateName::FlowBlankLineAfter),
                State::Next(StateName::FlowInitialBefore),
            ),
            code,
        )
    }
}

/// Before flow.
///
/// First we assume a blank line.
///
/// ```markdown
/// |
/// |## alpha
/// |    bravo
/// |***
/// ```
pub fn start(tokenizer: &mut Tokenizer, code: Code) -> (result: StateFnResult)
    requires
        old(tokenizer)@.awaits(StateName::FlowStart, code),
    ensures
        old(tokenizer)@.stepped(StateName::FlowStart, code, final(tokenizer)@, result),
        (final(tokenizer)@, result) == start_step(old(tokenizer)@, code),
{
    match code {
        Code::Eof => (State::Success, None),
        _ => {
            tokenizer.attempt(
                State::Next(StateName::FlowBlankLineAfter),
                State::Next(StateName::FlowInitialBefore),
            );
            blank_line::start(tokenizer, code)
        },
    }
}

/// What [`blank_line_after`] does.
pub open spec fn blank_line_after_step(t: TokenizerView, code: Code) -> (
    TokenizerView,
    StateFnResult,
) {
    line_end_step(t, code, TokenType::BlankLineEnding)
}

/// After a blank line.
///
/// Move to `start` afterwards.
///
/// ```markdown
/// ␠␠|
/// ```
pub fn blank_line_after(tokenizer: &mut Tokenizer, code: Code) -> (result: StateFnResult)
    requires
        old(tokenizer)@.awaits(StateName::FlowBlankLineAfter, code),
    ensures
        old(tokenizer)@.stepped(StateName::FlowBlankLineAfter, code, final(tokenizer)@, result),
        (final(tokenizer)@, result) == blank_line_after_step(old(tokenizer)@, code),
{
    match code {
        Code::Eof => (State::Success, None),
        _ => {
            tokenizer.enter(TokenType::BlankLineEnding);
            tokenizer.consume(code);
            tokenizer.exit(TokenType::BlankLineEnding);
            (State::Next(StateName::FlowStart), None)
        },
    }
}

/// What [`initial_before`] does.
pub open spec fn initial_before_step(t: TokenizerView, code: Code) -> (
    TokenizerView,
    StateFnResult,
) {
    if code == Code::Eof {
        (t, (State::Success, None))
    } else {
        code_indented::start_step(
            t.attempt(
                AttemptKind::Attempt,
                seq![StateName::CodeFencedStart, StateName::HtmlFlowStart],
                State::Next(StateName::FlowAfter),
                State::Next(StateName::FlowBefore),
            ),
            code,
        )
    }
}

/// Before flow (initial).
///
/// “Initial” flow means unprefixed flow, so right at the start of a line.
/// Move to `before` afterwards.
///
/// ```markdown
/// |qwe
/// |    asd
/// |~~~js
/// |<div>
/// ```
pub fn initial_before(tokenizer: &mut Tokenizer, code: Code) -> (result: StateFnResult)
    requires
        old(tokenizer)@.awaits(StateName::FlowInitialBefore, code),
    ensures
        old(tokenizer)@.stepped(StateName::FlowInitialBefore, code, final(tokenizer)@, result),
        (final(tokenizer)@, result) == initial_before_step(old(tokenizer)@, code),
{
    match code {
        Code::Eof => (State::Success, None),
        _ => {
            let rest = vec![StateName::CodeFencedStart, StateName::HtmlFlowStart];
            proof {
                assert(rest@ =~= seq![StateName::CodeFencedStart, StateName::HtmlFlowStart]);
            }
            tokenizer.attempt_n(
                rest,
                State::Next(StateName::FlowAfter),
                State::Next(StateName::FlowBefore),
            );
            code_indented::start(tokenizer, code)
        },
    }
}

/// What [`after`] does.
pub open spec fn after_step(t: TokenizerView, code: Code) -> (TokenizerView, StateFnResult) {
    line_end_step(t, code, TokenType::LineEnding)
}

/// After a flow construct.
///
/// ```markdown
/// ## alpha|
/// |
/// ~~~js
/// asd
/// ~~~|
/// ```
pub fn after(tokenizer: &mut Tokenizer, code: Code) -> (result: StateFnResult)
    requires
        old(tokenizer)@.awaits(StateName::FlowAfter, code),
    ensures
        old(tokenizer)@.stepped(StateName::FlowAfter, code, final(tokenizer)@, result),
        (final(tokenizer)@, result) == after_step(old(tokenizer)@, code),
{
    match code {
        Code::Eof => (State::Success, None),
        _ => {
            tokenizer.enter(TokenType::LineEnding);
            tokenizer.consume(code);
            tokenizer.exit(TokenType::LineEnding);
            (State::Next(StateName::FlowStart), None)
        },
    }
}

/// What [`before`] does.
pub open spec fn before_step(t: TokenizerView, code: Code) -> (TokenizerView, StateFnResult) {
    partial_whitespace::start_step(
        t.attempt(
            AttemptKind::Attempt,
            Seq::empty(),
            State::Next(StateName::FlowBeforeAfterPrefix),
            State::Next(StateName::FlowBeforeAfterPrefix),
        ),
        code,
        TokenType::Whitespace,
    )
}

/// Before flow, but not at code (indented) or code (fenced).
///
/// Compared to flow (initial), normal flow can be arbitrarily prefixed.
///
/// ```markdown
/// |qwe
/// ```
pub fn before(tokenizer: &mut Tokenizer, code: Code) -> (result: StateFnResult)
    requires
        old(tokenizer)@.awaits(StateName::FlowBefore, code),
    ensures
        old(tokenizer)@.stepped(StateName::FlowBefore, code, final(tokenizer)@, result),
        (final(tokenizer)@, result) == before_step(old(tokenizer)@, code),
{
    tokenizer.attempt(
        State::Next(StateName::FlowBeforeAfterPrefix),
        State::Next(StateName::FlowBeforeAfterPrefix),
    );
    partial_whitespace::start(tokenizer, code, TokenType::Whitespace)
}

/// What [`before_after_prefix`] does.
pub open spec fn before_after_prefix_step(t: TokenizerView, code: Code) -> (
    TokenizerView,
    StateFnResult,
) {
    heading_atx::start_step(
        t.attempt(
            AttemptKind::Attempt,
            seq![
                StateName::ThematicBreakStart,
                StateName::DefinitionStart,
                StateName::HeadingSetextStart,
            ],
            State::Next(StateName::FlowAfter),
            State::Next(StateName::FlowContentBefore),
        ),
        code,
    )
}

/// Before flow, after potential whitespace.
///
/// ```markdown
/// |# asd
/// |***
/// ```
pub fn before_after_prefix(tokenizer: &mut Tokenizer, code: Code) -> (result: StateFnResult)
    requires
        old(tokenizer)@.awaits(StateName::FlowBeforeAfterPrefix, code),
    ensures
        old(tokenizer)@.stepped(StateName::FlowBeforeAfterPrefix, code, final(tokenizer)@, result),
        (final(tokenizer)@, result) == before_after_prefix_step(old(tokenizer)@, code),
{
    let rest = vec![
        StateName::ThematicBreakStart,
        StateName::DefinitionStart,
        StateName::HeadingSetextStart,
    ];
    proof {
        assert(rest@ =~= seq![
            StateName::ThematicBreakStart,
            StateName::DefinitionStart,
            StateName::HeadingSetextStart,
        ]);
    }
    tokenizer.attempt_n(
        rest,
        State::Next(StateName::FlowAfter),
        State::Next(StateName::FlowContentBefore),
    );
    heading_atx::start(tokenizer, code)
}

/// What [`content_before`] does.
pub open spec fn content_before_step(t: TokenizerView, code: Code) -> (
    TokenizerView,
    StateFnResult,
) {
    if code.is_line_end() {
        after_step(t, code)
    } else {
        content_step(
            t.enter(TokenType::Content).enter(TokenType::ChunkContent),
            code,
            (t.events.len() + 1) as usize,
        )
    }
}

/// Before content.
///
/// ```markdown
/// |qwe
/// ```
pub fn content_before(tokenizer: &mut Tokenizer, code: Code) -> (result: StateFnResult)
    requires
        old(tokenizer)@.awaits(StateName::FlowContentBefore, code),
    ensures
        old(tokenizer)@.stepped(StateName::FlowContentBefore, code, final(tokenizer)@, result),
        (final(tokenizer)@, result) == content_before_step(old(tokenizer)@, code),
{
    if code.line_end() {
        after(tokenizer, code)
    } else {
        tokenizer.enter(TokenType::Content);
        tokenizer.enter(TokenType::ChunkContent);
        let previous = tokenizer.events.len() - 1;
        content(tokenizer, code, previous)
    }
}

/// What [`content`] does.
pub open spec fn content_step(t: TokenizerView, code: Code, previous: usize) -> (
    TokenizerView,
    StateFnResult,
) {
    if code == Code::Eof {
        content_end_step(t, code)
    } else if code.is_eol() {
        continuation_construct_step(
            t.attempt(
                AttemptKind::Check,
                Seq::empty(),
                State::Next(StateName::FlowContentEnd),
                State::Next(StateName::FlowContentContinue { previous }),
            ),
            code,
        )
    } else {
        (t.consume(), (State::Next(StateName::FlowContent { previous }), None))
    }
}

/// In content.
///
/// ```markdown
/// al|pha
/// ```
pub fn content(tokenizer: &mut Tokenizer, code: Code, previous: usize) -> (result: StateFnResult)
    requires
        old(tokenizer)@.awaits(StateName::FlowContent { previous }, code),
    ensures
        old(tokenizer)@.stepped(
            StateName::FlowContent { previous },
            code,
            final(tokenizer)@,
            result,
        ),
        (final(tokenizer)@, result) == content_step(old(tokenizer)@, code, previous),
{
    match code {
        Code::Eof => content_end(tokenizer, code),
        _ => {
            if code.eol() {
                tokenizer.check(
                    State::Next(StateName::FlowContentEnd),
                    State::Next(StateName::FlowContentContinue { previous }),
                );
                continuation_construct(tokenizer, code)
            } else {
                tokenizer.consume(code);
                (State::Next(StateName::FlowContent { previous }), None)
            }
        },
    }
}

/// What [`continuation_construct`] does.
pub open spec fn continuation_construct_step(t: TokenizerView, code: Code) -> (
    TokenizerView,
    StateFnResult,
) {
    (
        t.enter(TokenType::LineEnding).consume().exit(TokenType::LineEnding),
        (State::Next(StateName::FlowContinuationInitialBefore), None),
    )
}

/// At a line ending in content: look ahead whether the content ends
/// here. A match means that it does: the next line is blank, or begins a
/// construct that ends content.
///
/// ```markdown
/// alpha|
/// bravo
/// ```
pub fn continuation_construct(tokenizer: &mut Tokenizer, code: Code) -> (result: StateFnResult)
    requires
        old(tokenizer)@.awaits(StateName::FlowContinuationConstruct, code),
    ensures
        old(tokenizer)@.stepped(
            StateName::FlowContinuationConstruct,
            code,
            final(tokenizer)@,
            result,
        ),
        (final(tokenizer)@, result) == continuation_construct_step(old(tokenizer)@, code),
{
    tokenizer.enter(TokenType::LineEnding);
    tokenizer.consume(code);
    tokenizer.exit(TokenType::LineEnding);
    (State::Next(StateName::FlowContinuationInitialBefore), None)
}

/// What [`continuation_construct_initial_before`] does.
pub open spec fn continuation_construct_initial_before_step(t: TokenizerView, code: Code) -> (
    TokenizerView,
    StateFnResult,
) {
    code_fenced::start_step(
        t.attempt(
            AttemptKind::Attempt,
            seq![StateName::HtmlFlowInterrupt],
            State::Success,
            State::Next(StateName::FlowContinuationBefore),
        ),
        code,
    )
}

/// Looking ahead, at the start of the next line: fenced code and HTML
/// end the content, so that the look ahead matches where one of them
/// begins.
///
/// ```markdown
/// alpha
/// |~~~js
/// ```
pub fn continuation_construct_initial_before(
    tokenizer: &mut Tokenizer,
    code: Code,
) -> (result: StateFnResult)
    requires
        old(tokenizer)@.awaits(StateName::FlowContinuationInitialBefore, code),
    ensures
        old(tokenizer)@.stepped(
            StateName::FlowContinuationInitialBefore,
            code,
            final(tokenizer)@,
            result,
        ),
        (
            final(tokenizer)@,
            result,
        ) == continuation_construct_initial_before_step(old(tokenizer)@, code),
{
    let rest = vec![StateName::HtmlFlowInterrupt];
    proof {
        assert(rest@ =~= seq![StateName::HtmlFlowInterrupt]);
    }
    tokenizer.attempt_n(rest, State::Success, State::Next(StateName::FlowContinuationBefore));
    code_fenced::start(tokenizer, code)
}

/// What [`continuation_construct_before`] does.
pub open spec fn continuation_construct_before_step(t: TokenizerView, code: Code) -> (
    TokenizerView,
    StateFnResult,
) {
    partial_whitespace::start_step(
        t.attempt(
            AttemptKind::Attempt,
            Seq::empty(),
            State::Next(StateName::FlowContinuationAfterPrefix),
            State::Next(StateName::FlowContinuationAfterPrefix),
        ),
        code,
        TokenType::Whitespace,
    )
}

/// Looking ahead, at the start of the next line, which begins neither
/// fenced code nor HTML: pass whitespace.
///
/// ```markdown
/// alpha
/// |  bravo
/// ```
pub fn continuation_construct_before(
    tokenizer: &mut Tokenizer,
    code: Code,
) -> (result: StateFnResult)
    requires
        old(tokenizer)@.awaits(StateName::FlowContinuationBefore, code),
    ensures
        old(tokenizer)@.stepped(StateName::FlowContinuationBefore, code, final(tokenizer)@, result),
        (final(tokenizer)@, result) == continuation_construct_before_step(old(tokenizer)@, code),
{
    tokenizer.attempt(
        State::Next(StateName::FlowContinuationAfterPrefix),
        State::Next(StateName::FlowContinuationAfterPrefix),
    );
    partial_whitespace::start(tokenizer, code, TokenType::Whitespace)
}

/// Number of codes of whitespace that `events` ends with.
pub open spec fn prefix_size(events: Seq<Event>) -> int {
    if events.len() > 0 && events.last().token_type == TokenType::Whitespace {
        span_of(events, events.len() - 1).size()
    } else {
        0
    }
}

/// What [`continuation_construct_after_prefix`] does.
pub open spec fn continuation_construct_after_prefix_step(t: TokenizerView, code: Code) -> (
    TokenizerView,
    StateFnResult,
) {
    if code.is_line_end() {
        (t, (State::Success, None))
    } else if prefix_size(t.events) >= TAB_SIZE {
        (t, (State::Failure, None))
    } else {
        heading_atx::start_step(
            t.attempt(
                AttemptKind::Attempt,
                seq![StateName::ThematicBreakStart],
                State::Success,
                State::Failure,
            ),
            code,
        )
    }
}

/// Looking ahead, behind the whitespace of the next line: a blank line,
/// a heading or a thematic break end the content, so that the look ahead
/// matches; a line indented as far as code would be goes on with the
/// content, so that the look ahead does not match. Where the state decides
/// by itself, it hands back no code.
///
/// ```markdown
/// alpha
///   |bravo
/// ```
pub fn continuation_construct_after_prefix(
    tokenizer: &mut Tokenizer,
    code: Code,
) -> (result: StateFnResult)
    requires
        old(tokenizer)@.awaits(StateName::FlowContinuationAfterPrefix, code),
    ensures
        old(tokenizer)@.stepped(
            StateName::FlowContinuationAfterPrefix,
            code,
            final(tokenizer)@,
            result,
        ),
        (
            final(tokenizer)@,
            result,
        ) == continuation_construct_after_prefix_step(old(tokenizer)@, code),
{
    let mut prefix: usize = 0;
    let length = tokenizer.events.len();
    if length > 0 {
        let tail = tokenizer.events[length - 1];
        let whitespace = match tail.token_type {
            TokenType::Whitespace => true,
            _ => false,
        };
        if whitespace {
            let span = from_exit_event(&tokenizer.events, length - 1);
            prefix = span.len();
        }
    }
    if code.line_end() {
        // Blank lines are not allowed in content.
        (State::Success, None)
    } else if prefix >= TAB_SIZE {
        (State::Failure, None)
    } else {
        let rest = vec![StateName::ThematicBreakStart];
        proof {
            assert(rest@ =~= seq![StateName::ThematicBreakStart]);
        }
        tokenizer.attempt_n(rest, State::Success, State::Failure);
        heading_atx::start(tokenizer, code)
    }
}

/// What [`content_continue`] does.
pub open spec fn content_continue_step(t: TokenizerView, code: Code, previous: usize) -> (
    TokenizerView,
    StateFnResult,
) {
    (
        t.consume().exit(TokenType::ChunkContent).enter(TokenType::ChunkContent).link(
            previous as int,
            (t.events.len() + 1) as int,
        ),
        (State::Next(StateName::FlowContent { previous: (t.events.len() + 1) as usize }), None),
    )
}

/// At a line ending in content that goes on in the next line: the chunk
/// ends behind the line ending, and a new chunk begins, linked to it.
///
/// ```markdown
/// alpha|
/// bravo
/// ```
pub fn content_continue(
    tokenizer: &mut Tokenizer,
    code: Code,
    previous: usize,
) -> (result: StateFnResult)
    requires
        old(tokenizer)@.awaits(StateName::FlowContentContinue { previous }, code),
    ensures
        old(tokenizer)@.stepped(
            StateName::FlowContentContinue { previous },
            code,
            final(tokenizer)@,
            result,
        ),
        (final(tokenizer)@, result) == content_continue_step(old(tokenizer)@, code, previous),
{
    tokenizer.consume(code);
    tokenizer.exit(TokenType::ChunkContent);
    tokenizer.enter(TokenType::ChunkContent);
    let next_index = tokenizer.events.len() - 1;
    tokenizer.link(previous, next_index);
    (State::Next(StateName::FlowContent { previous: next_index }), None)
}

/// What [`content_end`] does.
pub open spec fn content_end_step(t: TokenizerView, code: Code) -> (TokenizerView, StateFnResult) {
    after_step(t.exit(TokenType::ChunkContent).exit(TokenType::Content), code)
}

/// At the end of content.
///
/// ```markdown
/// alpha|
/// ```
pub fn content_end(tokenizer: &mut Tokenizer, code: Code) -> (result: StateFnResult)
    requires
        old(tokenizer)@.awaits(StateName::FlowContentEnd, code),
    ensures
        old(tokenizer)@.stepped(StateName::FlowContentEnd, code, final(tokenizer)@, result),
        (final(tokenizer)@, result) == content_end_step(old(tokenizer)@, code),
{
    tokenizer.exit(TokenType::ChunkContent);
    tokenizer.exit(TokenType::Content);
    after(tokenizer, code)
}

/// What the state function of `name` does, for the states of this file.
pub open spec fn step(name: StateName, t: TokenizerView, code: Code) -> (
    TokenizerView,
    StateFnResult,
) {
    match name {
        StateName::FlowStart => start_step(t, code),
        StateName::FlowBlankLineAfter => blank_line_after_step(t, code),
        StateName::FlowInitialBefore => initial_before_step(t, code),
        StateName::FlowAfter => after_step(t, code),
        StateName::FlowBefore => before_step(t, code),
        StateName::FlowBeforeAfterPrefix => before_after_prefix_step(t, code),
        StateName::FlowContentBefore => content_before_step(t, code),
        StateName::FlowContent { previous } => content_step(t, code, previous),
        StateName::FlowContentContinue { previous } => content_continue_step(t, code, previous),
        StateName::FlowContentEnd => content_end_step(t, code),
        StateName::FlowContinuationConstruct => continuation_construct_step(t, code),
        StateName::FlowContinuationInitialBefore =>
            continuation_construct_initial_before_step(t, code),
        StateName::FlowContinuationBefore => continuation_construct_before_step(t, code),
        StateName::FlowContinuationAfterPrefix => continuation_construct_after_prefix_step(t, code),
        _ => (t, (State::Failure, None)),
    }
}

/// Run the state function of `name`, which is a state of this file.
pub fn call(tokenizer: &mut Tokenizer, name: StateName, code: Code) -> (result: StateFnResult)
    requires
        old(tokenizer)@.awaits(name, code),
        name.family() == Family::Flow,
    ensures
        old(tokenizer)@.stepped(name, code, final(tokenizer)@, result),
        (final(tokenizer)@, result) == step(name, old(tokenizer)@, code),
{
    match name {
        StateName::FlowStart => start(tokenizer, code),
        StateName::FlowBlankLineAfter => blank_line_after(tokenizer, code),
        StateName::FlowInitialBefore => initial_before(tokenizer, code),
        StateName::FlowAfter => after(tokenizer, code),
        StateName::FlowBefore => before(tokenizer, code),
        StateName::FlowBeforeAfterPrefix => before_after_prefix(tokenizer, code),
        StateName::FlowContentBefore => content_before(tokenizer, code),
        StateName::FlowContent { previous } => content(tokenizer, code, previous),
        StateName::FlowContentContinue { previous } => content_continue(tokenizer, code, previous),
        StateName::FlowContentEnd => content_end(tokenizer, code),
        StateName::FlowContinuationConstruct => continuation_construct(tokenizer, code),
        StateName::FlowContinuationInitialBefore =>
            continuation_construct_initial_before(tokenizer, code),
        StateName::FlowContinuationBefore => continuation_construct_before(tokenizer, code),
        StateName::FlowContinuationAfterPrefix =>
            continuation_construct_after_prefix(tokenizer, code),
        _ => (State::Failure, None),
    }
}

} // verus!
