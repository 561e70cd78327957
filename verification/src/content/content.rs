//! The content content type: what a run of content holds once its lines
//! are known. Here that is a paragraph.

use vstd::prelude::*;
use crate::code::{Code, proper};
use crate::content::flow::fits;
use crate::construct::paragraph;
use crate::event::{
    Event, EventKind, Point, TokenType, balanced, chunkless, covers, placed, traced,
};
use crate::machine::step;
use crate::machine::code_at;
use crate::state::{State, StateName};
use crate::tokenizer::{Tokenizer, TokenizerView};

verus! {

/// The content machine over `codes` after `n` moves.
pub open spec fn content_after(codes: Seq<Code>, point: Point, index: usize, n: nat) -> (
    TokenizerView,
    State,
) {
    TokenizerView::initial(point, index).bounded((index + codes.len()) as usize).expect(
        code_at(codes, 0),
    ).run(State::Next(StateName::ParagraphStart), codes, true, n)
}

/// Whether `events` are what the content machine has written when it has
/// come to stand over `codes`.
pub open spec fn content_tokenized(
    codes: Seq<Code>,
    point: Point,
    index: usize,
    events: Seq<Event>,
) -> bool {
    exists|n: nat|
        {
            let (t, state) = #[trigger] content_after(codes, point, index, n);
            t.halted(state, codes, true) && state == State::Success && t.events == events
        }
}

/// The events that the content machine writes over `codes`.
pub open spec fn content_events(codes: Seq<Code>, point: Point, index: usize) -> Seq<Event> {
    choose|events: Seq<Event>| content_tokenized(codes, point, index, events)
}

/// The content machine writes one log of events over given codes, and no
/// other.
pub proof fn lemma_content_events(
    codes: Seq<Code>,
    point: Point,
    index: usize,
    events: Seq<Event>,
)
    requires
        content_tokenized(codes, point, index, events),
    ensures
        events == content_events(codes, point, index),
{
    let other = content_events(codes, point, index);
    let n = choose|n: nat|
        {
            let (t, state) = #[trigger] content_after(codes, point, index, n);
            t.halted(state, codes, true) && state == State::Success && t.events == events
        };
    let m = choose|m: nat|
        {
            let (t, state) = #[trigger] content_after(codes, point, index, m);
            t.halted(state, codes, true) && state == State::Success && t.events == other
        };
    TokenizerView::initial(point, index).bounded((index + codes.len()) as usize).expect(
        code_at(codes, 0),
    ).lemma_halted_unique(State::Next(StateName::ParagraphStart), codes, true, n, m);
}

/// Turn `codes`, of which the first has the index `index` and stands at
/// `point`, as content into events.
pub fn content(codes: &[Code], point: Point, index: usize) -> (events: Vec<Event>)
    requires
        proper(codes@),
        fits(codes@, point, index),
    ensures
        events@ == content_events(codes@, point, index),
        content_tokenized(codes@, point, index, events@),
        balanced(events@),
        covers(events@, index as int, index + codes@.len()),
        placed(events@, point, index as int, index + codes@.len()),
        traced(events@, point, index as int, codes@),
{
    let mut tokenizer = Tokenizer::new(point, index);
    proof {
        assert(tokenizer@.opened() =~= Seq::empty());
        assert(tokenizer@.fed =~= codes@.take(0));
    }
    let state = tokenizer.feed(codes, StateName::ParagraphStart, true);
    proof {
        tokenizer@.lemma_finished();
        assert(codes@.take(codes@.len() as int) =~= codes@);
        let n = choose|n: nat|
            (tokenizer@, state) == #[trigger] TokenizerView::initial(point, index).bounded(
                (index + codes@.len()) as usize,
            ).expect(code_at(codes@, 0)).run(
                State::Next(StateName::ParagraphStart),
                codes@,
                true,
                n,
            );
        assert((tokenizer@, state) == content_after(codes@, point, index, n));
        lemma_content_events(codes@, point, index, tokenizer@.events);
    }
    tokenizer.events
}

/// Whether `state` is one of the content machine.
pub open spec fn of_content(state: State) -> bool {
    match state {
        State::Next(name) => name == StateName::ParagraphStart || name
            == StateName::ParagraphLineStart || name == StateName::ParagraphData,
        _ => true,
    }
}

proof fn lemma_no_chunk_push(events: Seq<Event>, event: Event)
    requires
        chunkless(events),
        event.token_type != TokenType::ChunkContent,
    ensures
        chunkless(events.push(event)),
{
    assert forall|i: int| 0 <= i < events.push(event).len() implies (#[trigger] events.push(
        event,
    )[i]).token_type != TokenType::ChunkContent by {
        if i < events.len() {
            assert(events[i].token_type != TokenType::ChunkContent);
        }
    }
}

proof fn lemma_enter_chunkless(t: TokenizerView, token_type: TokenType)
    requires
        chunkless(t.events),
        token_type != TokenType::ChunkContent,
    ensures
        chunkless(t.enter(token_type).events),
        chunkless(t.exit(token_type).events),
{
    lemma_no_chunk_push(t.events, t.event(EventKind::Enter, token_type));
    lemma_no_chunk_push(t.events, t.event(EventKind::Exit, token_type));
}

/// The content machine stays among its own states, begins no attempt, and
/// writes no chunk.
pub proof fn lemma_content_step(t: TokenizerView, state: State, codes: Seq<Code>)
    requires
        of_content(state),
        t.attempts.len() == 0,
        chunkless(t.events),
    ensures
        of_content(t.advance(state, codes, true).1),
        t.advance(state, codes, true).0.attempts.len() == 0,
        chunkless(t.advance(state, codes, true).0.events),
{
    match state {
        State::Next(name) => {
            let fed = if t.consumed {
                t.expect(code_at(codes, t.index - t.start_index))
            } else {
                t
            };
            let code = fed.current;
            lemma_enter_chunkless(fed, TokenType::Paragraph);
            lemma_enter_chunkless(fed, TokenType::Data);
            lemma_enter_chunkless(fed, TokenType::LineEnding);
            let opened = fed.enter(TokenType::Paragraph);
            lemma_enter_chunkless(opened, TokenType::Paragraph);
            lemma_enter_chunkless(opened, TokenType::Data);
            lemma_enter_chunkless(opened, TokenType::LineEnding);
            lemma_enter_chunkless(
                opened.enter(TokenType::LineEnding).consume(),
                TokenType::LineEnding,
            );
            lemma_enter_chunkless(
                fed.enter(TokenType::LineEnding).consume(),
                TokenType::LineEnding,
            );
            let closed = fed.exit(TokenType::Data);
            lemma_enter_chunkless(closed, TokenType::Paragraph);
            lemma_enter_chunkless(closed, TokenType::Data);
            lemma_enter_chunkless(closed, TokenType::LineEnding);
            lemma_enter_chunkless(
                closed.enter(TokenType::LineEnding).consume(),
                TokenType::LineEnding,
            );
        },
        _ => {},
    }
}

/// After any number of moves the content machine has written no chunk.
pub proof fn lemma_content_run(codes: Seq<Code>, point: Point, index: usize, n: nat)
    ensures
        of_content(content_after(codes, point, index, n).1),
        content_after(codes, point, index, n).0.attempts.len() == 0,
        chunkless(content_after(codes, point, index, n).0.events),
    decreases n,
{
    let first = TokenizerView::initial(point, index).bounded((index + codes.len()) as usize).expect(
        code_at(codes, 0),
    );
    if n > 0 {
        lemma_content_run(codes, point, index, (n - 1) as nat);
        let (t, state) = content_after(codes, point, index, (n - 1) as nat);
        lemma_content_step(t, state, codes);
    }
}

/// The events of content hold no chunk.
pub proof fn lemma_content_chunkless(
    codes: Seq<Code>,
    point: Point,
    index: usize,
    events: Seq<Event>,
)
    requires
        content_tokenized(codes, point, index, events),
    ensures
        chunkless(events),
{
    let n = choose|n: nat|
        {
            let (t, state) = #[trigger] content_after(codes, point, index, n);
            t.halted(state, codes, true) && state == State::Success && t.events == events
        };
    lemma_content_run(codes, point, index, n);
}

} // verus!
