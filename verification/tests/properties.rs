use flowmark::code::{parse, parse_bytes, Code};
use flowmark::content::flow::{flow, tokenize};
use flowmark::event::{Event, EventKind, Point, TokenType};
use flowmark::to_markdown::construct_name::ConstructName;
use flowmark::to_markdown::state::{Options, State};
use flowmark::to_markdown::util::safe::SafeConfig;

const DOCUMENTS: [&str; 14] = [
    "",
    "\n",
    "a",
    "# a\n\nb\nc\n\n    d\n\te\n",
    "***\n- - -\n___ \n",
    "~~~\na\n~~~\n```js\nb",
    "<div>\n\n<!-- a -->\n<?b?>\n",
    "[a]: <b> 'c'\n[d]: e\n(f)\n",
    "a\r\nb\rc\r\n\r\n#\t#\n",
    "  ## a ##  \n### # b\n",
    "a\n===\nb\n--\n",
    "\\# a\n   <x\ny>\n",
    "[a\nb]: c \"d\ne\"\n  \n    f",
    "αβγ\n\u{1F600} # δ #\n",
];

fn start() -> Point {
    Point { line: 1, column: 1, offset: 0 }
}

/// The spans that are open behind `events`, if every exit closes the span
/// that was opened last.
fn open_spans(events: &[Event]) -> Option<Vec<TokenType>> {
    let mut stack = Vec::new();
    for event in events {
        match event.kind {
            EventKind::Enter => stack.push(event.token_type),
            EventKind::Exit => {
                if stack.pop() != Some(event.token_type) {
                    return None;
                }
            }
        }
    }
    Some(stack)
}

#[test]
fn every_span_is_closed_in_order() {
    for document in DOCUMENTS {
        let codes = parse(document);
        assert_eq!(open_spans(&flow(&codes, start(), 0)), Some(vec![]), "{:?}", document);
        assert_eq!(open_spans(&tokenize(&codes, start(), 0)), Some(vec![]), "{:?}", document);
    }
}

#[test]
fn the_leaves_cover_the_input_once() {
    for document in DOCUMENTS {
        let codes = parse(document);
        for events in [flow(&codes, start(), 0), tokenize(&codes, start(), 0)] {
            let mut covered = vec![0; codes.len()];
            for pair in events.windows(2) {
                if pair[0].kind == EventKind::Enter && pair[1].kind == EventKind::Exit {
                    for count in &mut covered[pair[0].index..pair[1].index] {
                        *count += 1;
                    }
                } else {
                    assert_eq!(pair[0].index, pair[1].index, "{:?}", document);
                }
            }
            assert!(covered.iter().all(|count| *count == 1), "{:?}", document);
        }
    }
}

#[test]
fn two_runs_write_the_same_events() {
    for document in DOCUMENTS {
        let codes = parse(document);
        assert_eq!(flow(&codes, start(), 0), flow(&codes, start(), 0), "{:?}", document);
    }
}

#[test]
fn the_places_of_the_events_are_those_of_the_input() {
    let codes = parse("a\r\n\tb\n\u{1F600}c");
    let events = flow(&codes, start(), 0);
    for event in &events {
        let mut point = start();
        for code in &codes[..event.index] {
            match code {
                Code::CarriageReturnLineFeed => {
                    point = Point { line: point.line + 1, column: 1, offset: point.offset + 2 };
                }
                Code::Char('\n') | Code::Char('\r') => {
                    point = Point { line: point.line + 1, column: 1, offset: point.offset + 1 };
                }
                Code::Char(c) => {
                    point.column += 1;
                    point.offset += c.len_utf8();
                }
                Code::VirtualSpace => point.column += 1,
                Code::Eof => unreachable!(),
            }
        }
        assert_eq!(event.point, point);
    }
    let last = events.last().unwrap();
    assert_eq!(last.point, Point { line: 3, column: 3, offset: 11 });
}

#[test]
fn tokenizing_can_begin_inside_a_document() {
    let codes = parse("a\n# b");
    let events = flow(&codes[2..], Point { line: 2, column: 1, offset: 2 }, 2);
    assert_eq!(events[0].token_type, TokenType::HeadingAtx);
    assert_eq!(events[0].index, 2);
    assert_eq!(events[0].point, Point { line: 2, column: 1, offset: 2 });
    assert_eq!(events.last().unwrap().index, 5);
    assert_eq!(events.last().unwrap().point, Point { line: 2, column: 4, offset: 5 });
}

#[test]
fn the_leaves_lie_one_behind_the_other_from_the_first_index_on() {
    for document in ["a\nb\n==\n\n***\n", "# a\n\n```\nb\n```\n[c]: d\n", "<div>\n\ne\n-", "#\n## "] {
        let codes = parse(document);
        for index in [0usize, 1, 9] {
            let events = flow(&codes, Point { line: 1, column: 1, offset: 0 }, index);
            let mut at = index;
            let mut i = 1;
            while i < events.len() {
                if events[i - 1].kind == EventKind::Enter && events[i].kind == EventKind::Exit {
                    assert_eq!(events[i - 1].index, at, "{:?}", document);
                    assert!(events[i].index >= at, "{:?}", document);
                    at = events[i].index;
                }
                i += 1;
            }
            assert_eq!(at, index + codes.len(), "{:?}", document);
        }
    }
}

#[test]
fn events_keep_their_shape_when_the_first_index_moves() {
    let codes = parse("a\nb\n==\n\n> c\n");
    let first = flow(&codes, Point { line: 1, column: 1, offset: 0 }, 0);
    let moved = flow(&codes, Point { line: 1, column: 1, offset: 0 }, 5);
    assert_eq!(first.len(), moved.len());
    for (a, b) in first.iter().zip(moved.iter()) {
        assert_eq!((a.kind, a.token_type, a.point), (b.kind, b.token_type, b.point));
        assert_eq!(a.index + 5, b.index);
    }
    assert_eq!(first[0].token_type, TokenType::HeadingSetext);
}

#[test]
fn codes_of_line_endings_and_tabs() {
    assert_eq!(
        parse("a\r\nb\rc\nd"),
        vec![
            Code::Char('a'),
            Code::CarriageReturnLineFeed,
            Code::Char('b'),
            Code::Char('\r'),
            Code::Char('c'),
            Code::Char('\n'),
            Code::Char('d'),
        ]
    );
    assert_eq!(
        parse("\ta\tbc\t\n\t"),
        vec![
            Code::Char('\t'),
            Code::VirtualSpace,
            Code::VirtualSpace,
            Code::VirtualSpace,
            Code::Char('a'),
            Code::Char('\t'),
            Code::VirtualSpace,
            Code::VirtualSpace,
            Code::Char('b'),
            Code::Char('c'),
            Code::Char('\t'),
            Code::VirtualSpace,
            Code::Char('\n'),
            Code::Char('\t'),
            Code::VirtualSpace,
            Code::VirtualSpace,
            Code::VirtualSpace,
        ]
    );
    assert_eq!(parse(""), vec![]);
}

#[test]
fn codes_of_bytes_that_are_no_utf8() {
    assert_eq!(parse_bytes(b"a\xFFb"), vec![Code::Char('a'), Code::Char('\u{FFFD}'), Code::Char('b')]);
    assert_eq!(parse_bytes("α\r\n".as_bytes()), vec![Code::Char('α'), Code::CarriageReturnLineFeed]);
}

#[test]
fn widths_of_codes() {
    assert_eq!(Code::Char('a').byte_width(), 1);
    assert_eq!(Code::Char('α').byte_width(), 2);
    assert_eq!(Code::Char('€').byte_width(), 3);
    assert_eq!(Code::Char('\u{1F600}').byte_width(), 4);
    assert_eq!(Code::CarriageReturnLineFeed.byte_width(), 2);
    assert_eq!(Code::VirtualSpace.byte_width(), 0);
    assert_eq!(Code::Eof.byte_width(), 0);
}

/// What a parser reads from text in which backslashes escape punctuation
/// characters and hexadecimal character references stand for characters.
fn read(value: &str) -> String {
    let chars: Vec<char> = value.chars().collect();
    let mut out = String::new();
    let mut index = 0;
    while index < chars.len() {
        if chars[index] == '\\' && index + 1 < chars.len() && chars[index + 1].is_ascii_punctuation()
        {
            out.push(chars[index + 1]);
            index += 2;
            continue;
        }
        if chars[index] == '&' && chars[index + 1..].starts_with(&['#', 'x']) {
            let digits: String =
                chars[index + 3..].iter().take_while(|c| c.is_ascii_hexdigit()).collect();
            let end = index + 3 + digits.len();
            if !digits.is_empty() && digits.len() <= 6 && chars.get(end) == Some(&';') {
                if let Some(c) = u32::from_str_radix(&digits, 16).ok().and_then(char::from_u32) {
                    out.push(c);
                    index = end + 1;
                    continue;
                }
            }
        }
        out.push(chars[index]);
        index += 1;
    }
    out
}

#[test]
fn safe_text_is_read_back_as_the_text() {
    let texts = [
        "",
        "a",
        "\\",
        "\\\\",
        "\\*",
        "a\\",
        "&#x41;",
        "&amp;",
        "&",
        "a*b_c[d](e)!<f>`g`~h",
        "# a\n1. b\n- c\n+ d\n> e\n=\n",
        "a \n b\t\n",
        "\"'()<>[]",
        "α\u{1F600}\u{0}\u{10FFFF}",
        "&\\#x41;\\&",
    ];
    let stacks: [&[ConstructName]; 8] = [
        &[],
        &[ConstructName::Paragraph, ConstructName::Phrasing],
        &[ConstructName::Definition, ConstructName::Label],
        &[ConstructName::Definition, ConstructName::DestinationLiteral],
        &[ConstructName::Definition, ConstructName::DestinationRaw],
        &[ConstructName::Definition, ConstructName::TitleQuote],
        &[ConstructName::HeadingAtx, ConstructName::Phrasing],
        &[ConstructName::CodeFenced, ConstructName::CodeFencedLangGraveAccent],
    ];
    let around = [("", ""), ("[", "]"), ("a\n", "\n"), ("\\", "#"), ("1", " ")];
    for text in texts {
        for stack in stacks {
            for (before, after) in around {
                for encode in [None, Some('*'), Some(' ')] {
                    let mut state = State::new(Options { quote: '"' });
                    for name in stack {
                        state.enter(*name);
                    }
                    let safe = state.safe(text, &SafeConfig::new(before, after, encode));
                    assert_eq!(read(&safe), text, "{:?} {:?} {:?}", text, stack, safe);
                }
            }
        }
    }
}

fn written(label: &str, url: &str, title: Option<&str>, quote: char) -> String {
    let node = flowmark::to_markdown::node::Definition {
        url: url.to_string(),
        title: title.map(|title| title.to_string()),
        identifier: label.to_string(),
        label: Some(label.to_string()),
    };
    let mut state = State::new(Options { quote });
    node.handle(&mut state).unwrap()
}

/// Where in `text` the code at `index` begins.
fn offset(text: &str, index: usize) -> usize {
    let mut found = 0;
    for (at, _) in text.char_indices().chain([(text.len(), ' ')]) {
        if parse(&text[..at]).len() <= index {
            found = at;
        }
    }
    found
}

/// The text between the codes at `from` and at `to`.
fn between(text: &str, from: usize, to: usize) -> &str {
    &text[offset(text, from)..offset(text, to)]
}

fn part(text: &str, events: &[Event], token_type: TokenType) -> Option<String> {
    let first = events.iter().find(|e| e.kind == EventKind::Enter && e.token_type == token_type)?;
    let last = events.iter().rev().find(|e| e.kind == EventKind::Exit && e.token_type == token_type)?;
    Some(read(between(text, first.index, last.index)))
}

#[test]
fn a_definition_that_is_written_is_tokenized_as_the_definition() {
    let cases = [
        ("a", "b", None, '"'),
        ("a]b", "c d", Some("e\"f"), '"'),
        ("a\\", "b", None, '"'),
        ("[x]", "c(d)", Some("t'u"), '\''),
        ("x", "", Some("(y)"), '('),
        ("x", "a>b <c", Some("t\\"), '"'),
        ("x", "b\\", Some("t"), '"'),
        ("x", "<a", None, '"'),
        ("x", "<a>", Some("<t>"), '\''),
        ("x", "a<b", Some("t"), '('),
    ];
    for (label, url, title, quote) in cases {
        let text = written(label, url, title, quote);
        let events = flow(&parse(&text), start(), 0);
        assert_eq!(events[0].token_type, TokenType::Definition, "{:?}", text);
        assert_eq!(events.last().unwrap().token_type, TokenType::Definition, "{:?}", text);
        assert_eq!(
            part(&text, &events, TokenType::DefinitionLabelData),
            Some(label.to_string()),
            "{:?}",
            text
        );
        assert_eq!(
            part(&text, &events, TokenType::DefinitionDestinationString).unwrap_or_default(),
            url,
            "{:?}",
            text
        );
        assert_eq!(
            part(&text, &events, TokenType::DefinitionTitleString),
            title.map(|title| title.to_string()),
            "{:?}",
            text
        );
    }
}

#[test]
fn a_destination_that_begins_with_an_angle_bracket_is_read_back() {
    let text = written("x", "<a", None, '"');
    assert_eq!(text, "[x]: \\<a");
    let events = flow(&parse(&text), start(), 0);
    assert_eq!(events[0].token_type, TokenType::Definition);
    assert!(events.iter().any(|e| e.token_type == TokenType::DefinitionDestinationRaw));
    assert_eq!(
        part(&text, &events, TokenType::DefinitionDestinationString),
        Some("<a".to_string())
    );
    assert_eq!(written("x", "a<b>", Some("<t>"), '"'), "[x]: a\\<b> \"<t>\"");
}

fn is_read_as_a_definition(text: &str) -> bool {
    let events = flow(&parse(text), start(), 0);
    events[0].token_type == TokenType::Definition
        && events.last().unwrap().token_type == TokenType::Definition
}

#[test]
fn a_label_has_to_hold_more_than_whitespace() {
    for label in ["", " ", "\t", "\n", " \n\t"] {
        assert!(!is_read_as_a_definition(&written(label, "b", None, '"')), "{:?}", label);
    }
    for label in [" a", "a\n", "\n\\", "&"] {
        assert!(is_read_as_a_definition(&written(label, "b", None, '"')), "{:?}", label);
    }
}

#[test]
fn a_label_and_a_title_hold_no_blank_line() {
    for part in ["a\n\nb", "a\r\rb", "a\n \t\nb", "a\r\n\r\nb", "a\n\r\nb", "\n\na"] {
        assert!(!is_read_as_a_definition(&written(part, "b", None, '"')), "{:?}", part);
        assert!(!is_read_as_a_definition(&written("x", "b", Some(part), '"')), "{:?}", part);
        assert!(!is_read_as_a_definition(&written("x", "b", Some(part), '(')), "{:?}", part);
    }
    for part in ["a\nb", "a\r\nb", "a\n b", "a \n\tb\rc", "\na", "a\n"] {
        assert!(is_read_as_a_definition(&written(part, "b", None, '"')), "{:?}", part);
        assert!(is_read_as_a_definition(&written("x", "b", Some(part), '"')), "{:?}", part);
        assert!(is_read_as_a_definition(&written("x", "b", Some(part), '\'')), "{:?}", part);
    }
}

#[test]
fn a_label_holds_no_more_codes_than_a_label_can_have() {
    assert!(is_read_as_a_definition(&written(&"a".repeat(999), "b", None, '"')));
    assert!(!is_read_as_a_definition(&written(&"a".repeat(1000), "b", None, '"')));
    assert!(is_read_as_a_definition(&written(&"]".repeat(499), "b", None, '"')));
    assert!(!is_read_as_a_definition(&written(&"]".repeat(500), "b", None, '"')));
    let tab = format!("\t{}", "a".repeat(996));
    assert!(is_read_as_a_definition(&written(&tab, "b", None, '"')));
    let tab = format!("\t{}", "a".repeat(997));
    assert!(!is_read_as_a_definition(&written(&tab, "b", None, '"')));
    let tab = format!("abc\t{}", "a".repeat(992));
    assert!(is_read_as_a_definition(&written(&tab, "b", None, '"')));
    let tab = format!("abc\t{}", "a".repeat(993));
    assert!(!is_read_as_a_definition(&written(&tab, "b", None, '"')));
}

/// The text as it is written where the constructs of `inside` are entered.
fn written_part(inside: &[ConstructName], text: &str, before: &str, after: &str) -> String {
    let mut state = State::new(Options { quote: '"' });
    for name in inside {
        state.enter(*name);
    }
    state.safe(text, &SafeConfig::new(before, after, None))
}

fn holds_a_blank_line(text: &str) -> bool {
    let chars: Vec<char> = text.chars().collect();
    for i in 0..chars.len() {
        if chars[i] != '\n' && chars[i] != '\r' {
            continue;
        }
        let mut j = i + 1;
        while j < chars.len() && (chars[j] == ' ' || chars[j] == '\t') {
            j += 1;
        }
        if j < chars.len()
            && (chars[j] == '\n' || chars[j] == '\r')
            && !(j == i + 1 && chars[i] == '\r' && chars[j] == '\n')
        {
            return true;
        }
    }
    false
}

fn fits_a_label(text: &str) -> bool {
    text.chars().any(|c| !matches!(c, ' ' | '\t' | '\n' | '\r'))
        && !holds_a_blank_line(text)
        && parse(&format!("[{}", text)).len() - 1 <= 999
}

#[test]
fn what_is_written_is_read_back_unless_the_label_or_the_title_is_refused() {
    let alphabet = [
        'a', ' ', '\t', '\n', '\r', '\\', '[', ']', '<', '>', '(', ')', '"', '\'', '&', '#', ';',
        'x', '*', '\u{A0}', '\u{7F}', 'é',
    ];
    let mut seed: u64 = 0x2545F4914F6CDD1D;
    let mut next = |bound: usize| {
        seed = seed.wrapping_mul(6364136223846793005).wrapping_add(1442695040888963407);
        ((seed >> 33) as usize) % bound
    };
    let mut read_back = 0;
    for round in 0..4000 {
        let mut parts = Vec::new();
        for _ in 0..3 {
            let length = next(6);
            let mut part = String::new();
            for _ in 0..length {
                part.push(alphabet[next(alphabet.len())]);
            }
            parts.push(part);
        }
        let quote = ['"', '\'', '('][next(3)];
        let title = if round % 3 == 0 { None } else { Some(parts[2].as_str()) };
        let (label, url) = (parts[0].as_str(), parts[1].as_str());
        let text = written(label, url, title, quote);

        let in_label = written_part(&[ConstructName::Definition, ConstructName::Label], label, "[", "]");
        let in_title = title.map(|title| {
            let (name, close) = match quote {
                '"' => (ConstructName::TitleQuote, "\""),
                '\'' => (ConstructName::TitleApostrophe, "'"),
                _ => (ConstructName::TitleParen, ")"),
            };
            written_part(&[ConstructName::Definition, name], title, url, close)
        });
        let legible = fits_a_label(&in_label)
            && in_title.as_deref().map_or(true, |title| !holds_a_blank_line(title));

        assert_eq!(is_read_as_a_definition(&text), legible, "{:?}", text);
        if legible {
            let events = flow(&parse(&text), start(), 0);
            let close = events.iter().position(|e| e.token_type == TokenType::DefinitionLabel
                && e.kind == EventKind::Exit).unwrap();
            assert_eq!(read(between(&text, 1, events[close].index - 1)), label, "{:?}", text);
            assert_eq!(
                part(&text, &events, TokenType::DefinitionDestinationString).unwrap_or_default(),
                url,
                "{:?}",
                text
            );
            let found = events.iter().position(|e| e.token_type == TokenType::DefinitionTitle);
            match (found, title) {
                (Some(open), Some(title)) => {
                    let close = events.iter().rposition(|e| {
                        e.token_type == TokenType::DefinitionTitle
                    }).unwrap();
                    let inside =
                        between(&text, events[open].index + 1, events[close].index - 1);
                    assert_eq!(read(inside), title, "{:?}", text);
                }
                (None, None) => {}
                _ => panic!("{:?}", text),
            }
            read_back += 1;
        }
    }
    assert!(read_back > 1000);
}

#[test]
fn the_construct_of_definitions_matches_what_is_written() {
    let cases = [
        ("a", "b", None, '"'),
        ("a]b", "c d", Some("e\"f"), '"'),
        ("a\\", "<b", Some("c\nd"), '\''),
        (" a\n b ", "", Some("(c)"), '('),
        ("&#x41;", "b\\(c", None, '"'),
    ];
    for (label, url, title, quote) in cases {
        let text = written(label, url, title, quote);
        assert!(!text.contains('\t') && !text.contains("\r\n"));
        let codes = parse(&text);
        assert_eq!(codes.len(), text.chars().count());
        let mut tokenizer = flowmark::tokenizer::Tokenizer::new(start(), 0);
        let state = tokenizer.feed(&codes, flowmark::state::StateName::DefinitionStart, true);
        assert_eq!(state, flowmark::state::State::Success, "{:?}", text);
        assert_eq!(tokenizer.index, codes.len(), "{:?}", text);
        assert!(tokenizer.stack.is_empty());
        assert!(tokenizer.attempts.is_empty());
    }
}
