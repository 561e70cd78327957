use flowmark::code::{parse, Code};
use flowmark::content::flow::tokenize;
use flowmark::event::{Event, EventKind, Point, TokenType};

fn tokens(value: &str) -> (Vec<Code>, Vec<Event>) {
    let codes = parse(value);
    let events = tokenize(&codes, Point { line: 1, column: 1, offset: 0 }, 0);
    (codes, events)
}

fn shape(events: &[Event]) -> Vec<(EventKind, TokenType, usize)> {
    events.iter().map(|event| (event.kind, event.token_type, event.index)).collect()
}

#[test]
fn atx_heading_events() {
    let (_, events) = tokens("# foo");
    assert_eq!(
        shape(&events),
        vec![
            (EventKind::Enter, TokenType::HeadingAtx, 0),
            (EventKind::Enter, TokenType::HeadingAtxSequence, 0),
            (EventKind::Exit, TokenType::HeadingAtxSequence, 1),
            (EventKind::Enter, TokenType::HeadingAtxWhitespace, 1),
            (EventKind::Exit, TokenType::HeadingAtxWhitespace, 2),
            (EventKind::Enter, TokenType::HeadingAtxText, 2),
            (EventKind::Exit, TokenType::HeadingAtxText, 5),
            (EventKind::Exit, TokenType::HeadingAtx, 5),
        ]
    );
}

#[test]
fn paragraph_chunks_are_linked() {
    let (_, events) = tokens("a\nb");
    assert_eq!(
        shape(&events),
        vec![
            (EventKind::Enter, TokenType::Content, 0),
            (EventKind::Enter, TokenType::ChunkContent, 0),
            (EventKind::Exit, TokenType::ChunkContent, 2),
            (EventKind::Enter, TokenType::ChunkContent, 2),
            (EventKind::Exit, TokenType::ChunkContent, 3),
            (EventKind::Exit, TokenType::Content, 3),
        ]
    );
    assert_eq!(events[1].next, Some(3));
    assert_eq!(events[3].previous, Some(1));
    assert_eq!(events[1].previous, None);
    assert_eq!(events[3].next, None);
}
