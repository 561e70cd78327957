use flowmark::code::{parse, Code};
use flowmark::content::flow::flow;
use flowmark::event::{Event, EventKind, Point, TokenType};

/// The text of the codes from `start` up to `end`.
fn text(codes: &[Code], start: usize, end: usize) -> String {
    let mut out = String::new();
    for code in &codes[start..end] {
        match code {
            Code::Char(c) => out.push(*c),
            Code::CarriageReturnLineFeed => out.push_str("\r\n"),
            Code::VirtualSpace | Code::Eof => {}
        }
    }
    out
}

/// Text as it stands in HTML: with the backslash escapes read, and with the
/// characters that HTML takes for its own written as references.
fn phrasing(value: &str) -> String {
    let chars: Vec<char> = value.chars().collect();
    let mut out = String::new();
    let mut index = 0;
    while index < chars.len() {
        let mut c = chars[index];
        if c == '\\' && index + 1 < chars.len() && chars[index + 1].is_ascii_punctuation() {
            index += 1;
            c = chars[index];
        }
        match c {
            '&' => out.push_str("&amp;"),
            '<' => out.push_str("&lt;"),
            '>' => out.push_str("&gt;"),
            '"' => out.push_str("&quot;"),
            _ => out.push(c),
        }
        index += 1;
    }
    out
}

/// A small renderer of the events of flow, as far as these tests need one.
fn to_html(value: &str) -> String {
    let codes = parse(value);
    let events: Vec<Event> = flow(&codes, Point { line: 1, column: 1, offset: 0 }, 0);
    let mut out = String::new();
    let mut rank = 0;
    let mut lines: Vec<String> = Vec::new();
    let mut at_line_start = true;
    let mut index = 0;
    while index < events.len() {
        let event = &events[index];
        let enter = event.kind == EventKind::Enter;
        let span = |from: usize| {
            let mut depth = 0;
            let mut to = from;
            loop {
                match events[to].kind {
                    EventKind::Enter => depth += 1,
                    EventKind::Exit => depth -= 1,
                }
                if depth == 0 {
                    return text(&codes, events[from].index, events[to].index);
                }
                to += 1;
            }
        };
        match (enter, event.token_type) {
            (true, TokenType::HeadingAtx) => rank = 0,
            (true, TokenType::HeadingAtxSequence) if rank == 0 => rank = span(index).len(),
            (true, TokenType::HeadingAtxText) => {
                out.push_str(&format!("<h{}>{}</h{}>", rank, phrasing(&span(index)), rank));
            }
            (true, TokenType::Paragraph) => lines.clear(),
            (true, TokenType::Data) => lines.push(phrasing(span(index).trim())),
            (false, TokenType::Paragraph) => {
                out.push_str(&format!("<p>{}</p>", lines.join("\n")));
            }
            (true, TokenType::ThematicBreak) => out.push_str("<hr />"),
            (true, TokenType::CodeIndented) => {
                out.push_str("<pre><code>");
                at_line_start = true;
            }
            (true, TokenType::CodeFlowChunk) => {
                out.push_str(&phrasing(&span(index)));
                at_line_start = false;
            }
            (false, TokenType::CodeIndented) => {
                if !at_line_start {
                    out.push('\n');
                }
                out.push_str("</code></pre>");
            }
            (true, TokenType::LineEnding) | (true, TokenType::BlankLineEnding) => {
                out.push('\n');
                at_line_start = true;
            }
            _ => {}
        }
        index += 1;
    }
    out
}

#[test]
fn heading_atx() {
    assert_eq!(
        to_html("# foo"),
        "<h1>foo</h1>",
        "should support a heading w/ rank 1"
    );

    assert_eq!(
        to_html("## foo"),
        "<h2>foo</h2>",
        "should support a heading w/ rank 2"
    );

    assert_eq!(
        to_html("### foo"),
        "<h3>foo</h3>",
        "should support a heading w/ rank 3"
    );

    assert_eq!(
        to_html("#### foo"),
        "<h4>foo</h4>",
        "should support a heading w/ rank 4"
    );

    assert_eq!(
        to_html("##### foo"),
        "<h5>foo</h5>",
        "should support a heading w/ rank 5"
    );

    assert_eq!(
        to_html("###### foo"),
        "<h6>foo</h6>",
        "should support a heading w/ rank 6"
    );

    assert_eq!(
        to_html("####### foo"),
        "<p>####### foo</p>",
        "should not support a heading w/ rank 7"
    );

    assert_eq!(
        to_html("#5 bolt"),
        "<p>#5 bolt</p>",
        "should not support a heading for a number sign not followed by whitespace (1)"
    );

    assert_eq!(
        to_html("#hashtag"),
        "<p>#hashtag</p>",
        "should not support a heading for a number sign not followed by whitespace (2)"
    );

    assert_eq!(
        to_html("\\## foo"),
        "<p>## foo</p>",
        "should not support a heading for an escaped number sign"
    );

    assert_eq!(
        to_html("#                  foo                     "),
        "<h1>foo</h1>",
        "should support arbitrary initial and final whitespace"
    );

    assert_eq!(
        to_html(" ### foo"),
        "<h3>foo</h3>",
        "should support an initial space"
    );

    assert_eq!(
        to_html("  ## foo"),
        "<h2>foo</h2>",
        "should support two initial spaces"
    );

    assert_eq!(
        to_html("   # foo"),
        "<h1>foo</h1>",
        "should support three initial spaces"
    );

    assert_eq!(
        to_html("    # foo"),
        "<pre><code># foo\n</code></pre>",
        "should not support four initial spaces"
    );

    assert_eq!(
        to_html("## foo ##"),
        "<h2>foo</h2>",
        "should support a closing sequence (1)"
    );

    assert_eq!(
        to_html("  ###   bar    ###"),
        "<h3>bar</h3>",
        "should support a closing sequence (2)"
    );

    assert_eq!(
        to_html("# foo ##################################"),
        "<h1>foo</h1>",
        "should support a closing sequence w/ an arbitrary number of number signs (1)"
    );

    assert_eq!(
        to_html("##### foo ##"),
        "<h5>foo</h5>",
        "should support a closing sequence w/ an arbitrary number of number signs (2)"
    );

    assert_eq!(
        to_html("### foo ###     "),
        "<h3>foo</h3>",
        "should support trailing whitespace after a closing sequence"
    );

    assert_eq!(
        to_html("### foo ### b"),
        "<h3>foo ### b</h3>",
        "should not support other content after a closing sequence"
    );

    assert_eq!(
        to_html("# foo#"),
        "<h1>foo#</h1>",
        "should not support a closing sequence w/o whitespace before it"
    );

    assert_eq!(
        to_html("### foo \\###"),
        "<h3>foo ###</h3>",
        "should not support an “escaped” closing sequence (1)"
    );

    assert_eq!(
        to_html("## foo #\\##"),
        "<h2>foo ###</h2>",
        "should not support an “escaped” closing sequence (2)"
    );

    assert_eq!(
        to_html("# foo \\#"),
        "<h1>foo #</h1>",
        "should not support an “escaped” closing sequence (3)"
    );

    assert_eq!(
        to_html("****\n## foo\n****"),
        "<hr />\n<h2>foo</h2>\n<hr />",
        "should support atx headings when not surrounded by blank lines"
    );

    assert_eq!(
        to_html("Foo bar\n# baz\nBar foo"),
        "<p>Foo bar</p>\n<h1>baz</h1>\n<p>Bar foo</p>",
        "should support atx headings interrupting paragraphs"
    );

    assert_eq!(
        to_html("## \n#\n### ###"),
        "<h2></h2>\n<h1></h1>\n<h3></h3>",
        "should support empty atx headings"
    );
}
