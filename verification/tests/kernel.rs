use flowmark::code::{parse, Code};
use flowmark::construct::heading_setext;
use flowmark::event::{Event, EventKind, Point, TokenType};
use flowmark::resolve::{resolve, resolvers, Resolver};
use flowmark::state::{State, StateName};
use flowmark::subtokenize::subtokenize;
use flowmark::tokenizer::{left, Tokenizer};
use flowmark::util::span::{from_exit_event, Span};

fn start() -> Point {
    Point { line: 1, column: 1, offset: 0 }
}

fn event(kind: EventKind, token_type: TokenType, index: usize) -> Event {
    Event {
        kind,
        token_type,
        point: Point { line: 1, column: index + 1, offset: index },
        index,
        previous: None,
        next: None,
    }
}

#[test]
fn enter_consume_exit() {
    let codes = parse("ab");
    let mut tokenizer = Tokenizer::new(start(), 0);
    tokenizer.limit = codes.len();
    tokenizer.current = codes[0];
    tokenizer.enter(TokenType::Data);
    tokenizer.consume(codes[0]);
    assert!(tokenizer.consumed);
    assert_eq!(tokenizer.index, 1);
    assert_eq!(tokenizer.point, Point { line: 1, column: 2, offset: 1 });
    assert_eq!(tokenizer.stack, vec![TokenType::Data]);
    tokenizer.exit(TokenType::Data);
    assert!(tokenizer.stack.is_empty());
    assert_eq!(
        tokenizer.events,
        vec![event(EventKind::Enter, TokenType::Data, 0), event(EventKind::Exit, TokenType::Data, 1)]
    );
}

#[test]
fn a_failed_attempt_is_undone() {
    let codes = parse("ab");
    let mut tokenizer = Tokenizer::new(start(), 0);
    tokenizer.limit = codes.len();
    tokenizer.current = codes[0];
    tokenizer.attempt(State::Next(StateName::FlowAfter), State::Next(StateName::FlowBefore));
    tokenizer.enter(TokenType::Data);
    tokenizer.consume(codes[0]);
    assert_eq!(tokenizer.attempts.len(), 1);
    let state = tokenizer.settle(false);
    assert_eq!(state, State::Next(StateName::FlowBefore));
    assert!(tokenizer.attempts.is_empty());
    assert!(tokenizer.events.is_empty());
    assert!(tokenizer.stack.is_empty());
    assert_eq!(tokenizer.index, 0);
    assert_eq!(tokenizer.point, start());
    assert_eq!(tokenizer.current, codes[0]);
    assert!(!tokenizer.consumed);
}

#[test]
fn an_attempt_that_matched_is_kept() {
    let codes = parse("a\n");
    let mut tokenizer = Tokenizer::new(start(), 0);
    tokenizer.limit = codes.len();
    tokenizer.current = codes[0];
    tokenizer.attempt(State::Next(StateName::FlowAfter), State::Next(StateName::FlowBefore));
    tokenizer.enter(TokenType::Data);
    tokenizer.consume(codes[0]);
    tokenizer.exit(TokenType::Data);
    tokenizer.current = codes[1];
    tokenizer.consumed = false;
    let state = tokenizer.settle(true);
    assert_eq!(state, State::Next(StateName::FlowAfter));
    assert_eq!(tokenizer.events.len(), 2);
    assert_eq!(tokenizer.index, 1);
}

#[test]
fn a_check_is_undone_whether_it_matched_or_not() {
    let codes = parse("ab");
    for matched in [true, false] {
        let mut tokenizer = Tokenizer::new(start(), 0);
        tokenizer.limit = codes.len();
        tokenizer.current = codes[0];
        tokenizer.check(State::Success, State::Failure);
        tokenizer.enter(TokenType::Data);
        tokenizer.consume(codes[0]);
        tokenizer.exit(TokenType::Data);
        let state = tokenizer.settle(matched);
        assert_eq!(state, if matched { State::Success } else { State::Failure });
        assert!(tokenizer.events.is_empty());
        assert_eq!(tokenizer.index, 0);
    }
}

#[test]
fn the_constructs_of_an_attempt_are_tried_in_order() {
    let codes = parse("ab");
    let mut tokenizer = Tokenizer::new(start(), 0);
    tokenizer.limit = codes.len();
    tokenizer.current = codes[0];
    tokenizer.attempt_n(
        vec![StateName::ThematicBreakStart, StateName::DefinitionStart],
        State::Next(StateName::FlowAfter),
        State::Next(StateName::FlowContentBefore),
    );
    assert_eq!(tokenizer.settle(false), State::Next(StateName::ThematicBreakStart));
    assert_eq!(tokenizer.attempts.len(), 1);
    assert_eq!(tokenizer.settle(false), State::Next(StateName::DefinitionStart));
    assert_eq!(tokenizer.attempts.len(), 1);
    assert_eq!(tokenizer.settle(false), State::Next(StateName::FlowContentBefore));
    assert!(tokenizer.attempts.is_empty());
}

#[test]
fn feeding_without_the_end_stops_where_the_codes_end() {
    let codes = parse("# a");
    let mut tokenizer = Tokenizer::new(start(), 0);
    let state = tokenizer.feed(&codes, StateName::FlowStart, false);
    assert_eq!(state, State::Next(StateName::HeadingAtxData));
    assert_eq!(tokenizer.index, 3);
    assert_eq!(tokenizer.stack, vec![TokenType::HeadingAtx, TokenType::HeadingAtxText]);

    let mut tokenizer = Tokenizer::new(start(), 0);
    let state = tokenizer.feed(&codes, StateName::FlowStart, true);
    assert_eq!(state, State::Success);
    assert!(tokenizer.stack.is_empty());
    assert!(tokenizer.attempts.is_empty());
}

#[test]
fn what_is_left_of_a_code() {
    assert_eq!(left(Code::Char('a'), false), Some(Code::Char('a')));
    assert_eq!(left(Code::Char('a'), true), None);
    assert_eq!(left(Code::Eof, false), None);
}

#[test]
fn span_of_an_exit() {
    let events = vec![
        event(EventKind::Enter, TokenType::Content, 0),
        event(EventKind::Enter, TokenType::Data, 0),
        event(EventKind::Exit, TokenType::Data, 2),
        event(EventKind::Enter, TokenType::Data, 2),
        event(EventKind::Exit, TokenType::Data, 5),
        event(EventKind::Exit, TokenType::Content, 5),
    ];
    assert_eq!(from_exit_event(&events, 2), Span { start_index: 0, end_index: 2 });
    assert_eq!(from_exit_event(&events, 4), Span { start_index: 2, end_index: 5 });
    assert_eq!(from_exit_event(&events, 5), Span { start_index: 0, end_index: 5 });
    assert_eq!(from_exit_event(&events, 5).len(), 5);
    assert_eq!(Span { start_index: 3, end_index: 1 }.len(), 0);
}

#[test]
fn chunks_are_replaced_by_their_content() {
    let codes = parse("ab\ncd");
    let mut first = event(EventKind::Enter, TokenType::ChunkContent, 0);
    first.next = Some(3);
    let mut second = event(EventKind::Enter, TokenType::ChunkContent, 3);
    second.previous = Some(1);
    let events = vec![
        event(EventKind::Enter, TokenType::Content, 0),
        first,
        event(EventKind::Exit, TokenType::ChunkContent, 3),
        second,
        event(EventKind::Exit, TokenType::ChunkContent, 5),
        event(EventKind::Exit, TokenType::Content, 5),
    ];
    let (out, done) = subtokenize(events, &codes, 0);
    assert!(done);
    let shape: Vec<_> = out.iter().map(|e| (e.kind, e.token_type, e.index)).collect();
    assert_eq!(
        shape,
        vec![
            (EventKind::Enter, TokenType::Content, 0),
            (EventKind::Enter, TokenType::Paragraph, 0),
            (EventKind::Enter, TokenType::Data, 0),
            (EventKind::Exit, TokenType::Data, 2),
            (EventKind::Enter, TokenType::LineEnding, 2),
            (EventKind::Exit, TokenType::LineEnding, 3),
            (EventKind::Enter, TokenType::Data, 3),
            (EventKind::Exit, TokenType::Data, 5),
            (EventKind::Exit, TokenType::Paragraph, 5),
            (EventKind::Exit, TokenType::Content, 5),
        ]
    );
    assert_eq!(out[6].point, Point { line: 2, column: 1, offset: 3 });
}

#[test]
fn a_chunk_that_is_not_closed_is_left() {
    let codes = parse("ab");
    let events = vec![
        event(EventKind::Enter, TokenType::ChunkContent, 0),
        event(EventKind::Enter, TokenType::Data, 0),
        event(EventKind::Exit, TokenType::Data, 2),
        event(EventKind::Exit, TokenType::ChunkContent, 2),
    ];
    let (out, done) = subtokenize(events.clone(), &codes, 0);
    assert!(!done);
    assert_eq!(out, events);
}

#[test]
fn underlines() {
    let codes = parse("===\n   -- \t\n=-\n    =\n\n = a");
    assert!(heading_setext::underline(&codes, 0, 3));
    assert!(heading_setext::underline(&codes, 4, 11));
    assert!(!heading_setext::underline(&codes, 12, 14));
    assert!(!heading_setext::underline(&codes, 15, 20));
    assert!(!heading_setext::underline(&codes, 21, 21));
    assert!(!heading_setext::underline(&codes, 22, 26));
    assert!(!heading_setext::underline(&codes, 3, 0));
    assert!(!heading_setext::underline(&codes, 0, 100));
}

#[test]
fn the_resolvers_of_flow() {
    assert_eq!(resolvers(), vec![Resolver::HeadingSetext]);
    let codes = parse("a\n=");
    let events = vec![
        event(EventKind::Enter, TokenType::Content, 0),
        event(EventKind::Enter, TokenType::Paragraph, 0),
        event(EventKind::Enter, TokenType::Data, 0),
        event(EventKind::Exit, TokenType::Data, 1),
        event(EventKind::Enter, TokenType::LineEnding, 1),
        event(EventKind::Exit, TokenType::LineEnding, 2),
        event(EventKind::Enter, TokenType::Data, 2),
        event(EventKind::Exit, TokenType::Data, 3),
        event(EventKind::Exit, TokenType::Paragraph, 3),
        event(EventKind::Exit, TokenType::Content, 3),
    ];
    assert_eq!(resolve(&vec![], events.clone(), &codes, 0), events);
    let out = resolve(&resolvers(), events, &codes, 0);
    let shape: Vec<_> = out.iter().map(|e| (e.kind, e.token_type, e.index)).collect();
    assert_eq!(
        shape,
        vec![
            (EventKind::Enter, TokenType::HeadingSetext, 0),
            (EventKind::Enter, TokenType::HeadingSetextText, 0),
            (EventKind::Enter, TokenType::Data, 0),
            (EventKind::Exit, TokenType::Data, 1),
            (EventKind::Exit, TokenType::HeadingSetextText, 1),
            (EventKind::Enter, TokenType::LineEnding, 1),
            (EventKind::Exit, TokenType::LineEnding, 2),
            (EventKind::Enter, TokenType::HeadingSetextUnderline, 2),
            (EventKind::Exit, TokenType::HeadingSetextUnderline, 3),
            (EventKind::Exit, TokenType::HeadingSetext, 3),
        ]
    );
}

#[test]
fn chunks_are_read_from_the_index_of_the_first_code() {
    let codes = parse("ab\ncd");
    let mut first = event(EventKind::Enter, TokenType::ChunkContent, 7);
    first.next = Some(3);
    let mut second = event(EventKind::Enter, TokenType::ChunkContent, 10);
    second.previous = Some(1);
    let events = vec![
        event(EventKind::Enter, TokenType::Content, 7),
        first,
        event(EventKind::Exit, TokenType::ChunkContent, 10),
        second,
        event(EventKind::Exit, TokenType::ChunkContent, 12),
        event(EventKind::Exit, TokenType::Content, 12),
    ];
    let (out, done) = subtokenize(events, &codes, 7);
    assert!(done);
    let shape: Vec<_> = out.iter().map(|e| (e.kind, e.token_type, e.index)).collect();
    assert_eq!(
        shape,
        vec![
            (EventKind::Enter, TokenType::Content, 7),
            (EventKind::Enter, TokenType::Paragraph, 7),
            (EventKind::Enter, TokenType::Data, 7),
            (EventKind::Exit, TokenType::Data, 9),
            (EventKind::Enter, TokenType::LineEnding, 9),
            (EventKind::Exit, TokenType::LineEnding, 10),
            (EventKind::Enter, TokenType::Data, 10),
            (EventKind::Exit, TokenType::Data, 12),
            (EventKind::Exit, TokenType::Paragraph, 12),
            (EventKind::Exit, TokenType::Content, 12),
        ]
    );
}

#[test]
fn underlines_are_read_from_the_index_of_the_first_code() {
    let codes = parse("a\n=");
    let events = vec![
        event(EventKind::Enter, TokenType::Content, 4),
        event(EventKind::Enter, TokenType::Paragraph, 4),
        event(EventKind::Enter, TokenType::Data, 4),
        event(EventKind::Exit, TokenType::Data, 5),
        event(EventKind::Enter, TokenType::LineEnding, 5),
        event(EventKind::Exit, TokenType::LineEnding, 6),
        event(EventKind::Enter, TokenType::Data, 6),
        event(EventKind::Exit, TokenType::Data, 7),
        event(EventKind::Exit, TokenType::Paragraph, 7),
        event(EventKind::Exit, TokenType::Content, 7),
    ];
    let out = resolve(&resolvers(), events.clone(), &codes, 4);
    assert_eq!(out[0].token_type, TokenType::HeadingSetext);
    assert_eq!(out[0].index, 4);
    assert_eq!(out.last().unwrap().token_type, TokenType::HeadingSetext);
    let out = resolve(&resolvers(), events.clone(), &codes, 3);
    assert_eq!(out, events);
    let out = resolve(&resolvers(), events.clone(), &codes, 7);
    assert_eq!(out, events);
}

#[test]
fn an_attempt_holds_any_number_of_constructs() {
    let codes = parse("ab");
    let mut tokenizer = Tokenizer::new(start(), 0);
    tokenizer.limit = codes.len();
    tokenizer.current = codes[0];
    let mut rest = Vec::new();
    for i in 0..40 {
        rest.push(if i % 2 == 0 {
            StateName::ThematicBreakStart
        } else {
            StateName::DefinitionStart
        });
    }
    tokenizer.attempt_n(
        rest.clone(),
        State::Next(StateName::FlowAfter),
        State::Next(StateName::FlowContentBefore),
    );
    for name in rest {
        assert_eq!(tokenizer.settle(false), State::Next(name));
        assert_eq!(tokenizer.attempts.len(), 1);
    }
    assert_eq!(tokenizer.settle(false), State::Next(StateName::FlowContentBefore));
    assert!(tokenizer.attempts.is_empty());
}

#[test]
fn looks_ahead_nest_to_any_depth() {
    let codes = parse("ab");
    let mut tokenizer = Tokenizer::new(start(), 0);
    tokenizer.limit = codes.len();
    tokenizer.current = codes[0];
    for depth in 0..12 {
        assert_eq!(tokenizer.attempts.len(), depth);
        tokenizer.check(State::Success, State::Failure);
    }
    tokenizer.enter(TokenType::Data);
    tokenizer.consume(codes[0]);
    tokenizer.exit(TokenType::Data);
    assert_eq!(tokenizer.settle(true), State::Success);
    assert!(tokenizer.events.is_empty());
    assert_eq!(tokenizer.index, 0);
    for depth in (0..11).rev() {
        assert_eq!(tokenizer.settle(depth % 2 == 0), if depth % 2 == 0 {
            State::Success
        } else {
            State::Failure
        });
        assert_eq!(tokenizer.attempts.len(), depth);
    }
}
