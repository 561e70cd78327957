use flowmark::code::{parse, Code};
use flowmark::content::flow::flow;
use flowmark::event::{Event, EventKind, Point};

/// The events as nested brackets, each leaf with the text that it covers.
fn tree(value: &str) -> String {
    let codes = parse(value);
    let events = flow(&codes, Point { line: 1, column: 1, offset: 0 }, 0);
    let mut out = String::new();
    let mut index = 0;
    while index < events.len() {
        let event: &Event = &events[index];
        match event.kind {
            EventKind::Enter => {
                out.push_str(&format!("{:?}", event.token_type));
                if index + 1 < events.len() && events[index + 1].kind == EventKind::Exit {
                    out.push('(');
                    for code in &codes[event.index..events[index + 1].index] {
                        match code {
                            Code::Char('\n') => out.push_str("\\n"),
                            Code::Char('\r') => out.push_str("\\r"),
                            Code::Char('\t') => out.push_str("\\t"),
                            Code::Char(c) => out.push(*c),
                            Code::CarriageReturnLineFeed => out.push_str("\\r\\n"),
                            Code::VirtualSpace => out.push('_'),
                            Code::Eof => out.push('$'),
                        }
                    }
                    out.push(')');
                    index += 1;
                } else {
                    out.push('[');
                }
            }
            EventKind::Exit => out.push(']'),
        }
        index += 1;
    }
    out
}

#[test]
fn tree_of_atx_heading() {
    assert_eq!(
        tree("# foo"),
        "HeadingAtx[HeadingAtxSequence(#)HeadingAtxWhitespace( )HeadingAtxText(foo)]"
    );
}

#[test]
fn tree_of_atx_heading_with_closing_sequence() {
    assert_eq!(
        tree("## foo ##"),
        "HeadingAtx[HeadingAtxSequence(##)HeadingAtxWhitespace( )HeadingAtxText(foo)\
         HeadingAtxWhitespace( )HeadingAtxSequence(##)]"
    );
    assert_eq!(
        tree("### foo ### b"),
        "HeadingAtx[HeadingAtxSequence(###)HeadingAtxWhitespace( )HeadingAtxText(foo ### b)]"
    );
    assert_eq!(
        tree("# foo#"),
        "HeadingAtx[HeadingAtxSequence(#)HeadingAtxWhitespace( )HeadingAtxText(foo#)]"
    );
}

#[test]
fn tree_of_seven_number_signs() {
    assert_eq!(tree("####### foo"), "Content[Paragraph[Data(####### foo)]]");
}

#[test]
fn tree_of_empty_headings() {
    assert_eq!(
        tree("## \n#\n### ###"),
        "HeadingAtx[HeadingAtxSequence(##)HeadingAtxWhitespace( )HeadingAtxText()]LineEnding(\\n)\
         HeadingAtx[HeadingAtxSequence(#)HeadingAtxText()]LineEnding(\\n)\
         HeadingAtx[HeadingAtxSequence(###)HeadingAtxWhitespace( )HeadingAtxText()\
         HeadingAtxSequence(###)]"
    );
}

#[test]
fn tree_of_indented_code() {
    assert_eq!(
        tree("    # foo"),
        "CodeIndented[CodeIndentedPrefixWhitespace(    )CodeFlowChunk(# foo)]"
    );
    assert_eq!(
        tree("\ta\n\n    b\nc"),
        "CodeIndented[CodeIndentedPrefixWhitespace(\\t___)CodeFlowChunk(a)LineEnding(\\n)\
         LineEnding(\\n)CodeIndentedPrefixWhitespace(    )CodeFlowChunk(b)]LineEnding(\\n)\
         Content[Paragraph[Data(c)]]"
    );
}

#[test]
fn tree_of_thematic_breaks_around_a_heading() {
    assert_eq!(
        tree("****\n## foo\n****"),
        "ThematicBreak[ThematicBreakSequence(****)]LineEnding(\\n)\
         HeadingAtx[HeadingAtxSequence(##)HeadingAtxWhitespace( )HeadingAtxText(foo)]\
         LineEnding(\\n)ThematicBreak[ThematicBreakSequence(****)]"
    );
}

#[test]
fn tree_of_a_heading_that_interrupts_a_paragraph() {
    assert_eq!(
        tree("Foo bar\n# baz\nBar foo"),
        "Content[Paragraph[Data(Foo bar)]]LineEnding(\\n)\
         HeadingAtx[HeadingAtxSequence(#)HeadingAtxWhitespace( )HeadingAtxText(baz)]\
         LineEnding(\\n)Content[Paragraph[Data(Bar foo)]]"
    );
}

#[test]
fn tree_of_a_paragraph_of_two_lines() {
    assert_eq!(
        tree("a\n    b\n\nc"),
        "Content[Paragraph[Data(a)LineEnding(\\n)Data(    b)]]LineEnding(\\n)\
         BlankLineEnding(\\n)Content[Paragraph[Data(c)]]"
    );
}

#[test]
fn tree_of_fenced_code() {
    assert_eq!(
        tree("~~~js x\na\n  b\n~~~\nc"),
        "CodeFenced[CodeFencedFence[CodeFencedFenceSequence(~~~)CodeFencedFenceInfo(js)\
         CodeFencedFenceWhitespace( )CodeFencedFenceMeta(x)]LineEnding(\\n)CodeFlowChunk(a)\
         LineEnding(\\n)CodeFlowChunk(  b)LineEnding(\\n)\
         CodeFencedFence[CodeFencedFenceSequence(~~~)]]LineEnding(\\n)Content[Paragraph[Data(c)]]"
    );
}

#[test]
fn tree_of_a_definition() {
    assert_eq!(
        tree("[a]: b \"c\"\nd"),
        "Definition[DefinitionLabel[DefinitionLabelMarker([)DefinitionLabelData(a)\
         DefinitionLabelMarker(])]DefinitionMarker(:)Whitespace( )\
         DefinitionDestination[DefinitionDestinationRaw[DefinitionDestinationString(b)]]\
         Whitespace( )DefinitionTitle[DefinitionTitleMarker(\")DefinitionTitleString(c)\
         DefinitionTitleMarker(\")]]LineEnding(\\n)Content[Paragraph[Data(d)]]"
    );
}

#[test]
fn tree_of_a_definition_with_a_literal_destination() {
    assert_eq!(
        tree("[a]: <b c>"),
        "Definition[DefinitionLabel[DefinitionLabelMarker([)DefinitionLabelData(a)\
         DefinitionLabelMarker(])]DefinitionMarker(:)Whitespace( )\
         DefinitionDestination[DefinitionDestinationLiteral[\
         DefinitionDestinationLiteralMarker(<)DefinitionDestinationString(b c)\
         DefinitionDestinationLiteralMarker(>)]]]"
    );
}

#[test]
fn tree_of_a_definition_whose_title_is_none() {
    // What stands behind the title makes the whole no definition.
    assert_eq!(tree("[a]: b \"c\" d"), "Content[Paragraph[Data([a]: b \"c\" d)]]");
    // A title that does not end is no title, and what could have been one
    // in a line of its own is a paragraph.
    assert_eq!(
        tree("[a]: b\n\"c"),
        "Definition[DefinitionLabel[DefinitionLabelMarker([)DefinitionLabelData(a)\
         DefinitionLabelMarker(])]DefinitionMarker(:)Whitespace( )\
         DefinitionDestination[DefinitionDestinationRaw[DefinitionDestinationString(b)]]]\
         LineEnding(\\n)Content[Paragraph[Data(\"c)]]"
    );
    // A label cannot be empty, nor go over a blank line.
    assert_eq!(tree("[]: b"), "Content[Paragraph[Data([]: b)]]");
    assert_eq!(
        tree("[a\n\nb]: c"),
        "Content[Paragraph[Data([a)]]LineEnding(\\n)BlankLineEnding(\\n)\
         Content[Paragraph[Data(b]: c)]]"
    );
}

#[test]
fn tree_of_html_that_a_blank_line_ends() {
    assert_eq!(
        tree("<div>\na\n\nb"),
        "HtmlFlow[HtmlFlowData(<div>)LineEnding(\\n)HtmlFlowData(a)]LineEnding(\\n)\
         BlankLineEnding(\\n)Content[Paragraph[Data(b)]]"
    );
    assert_eq!(
        tree("  </BlockQuote x\n"),
        "HtmlFlow[Whitespace(  )HtmlFlowData(</BlockQuote x)]LineEnding(\\n)"
    );
    assert_eq!(tree("<hr/>"), "HtmlFlow[HtmlFlowData(<hr/>)]");
}

#[test]
fn tree_of_html_with_raw_content() {
    assert_eq!(
        tree("<script>\n\na</script> b\nc"),
        "HtmlFlow[HtmlFlowData(<script>)LineEnding(\\n)LineEnding(\\n)\
         HtmlFlowData(a</script> b)]LineEnding(\\n)Content[Paragraph[Data(c)]]"
    );
    // A tag that closes an element with raw content begins no such HTML,
    // but is a complete tag.
    assert_eq!(tree("</pre>\na"), "HtmlFlow[HtmlFlowData(</pre>)LineEnding(\\n)HtmlFlowData(a)]");
}

#[test]
fn tree_of_comments_instructions_declarations_and_character_data() {
    assert_eq!(
        tree("<!-- a\n\nb --> c\nd"),
        "HtmlFlow[HtmlFlowData(<!-- a)LineEnding(\\n)LineEnding(\\n)HtmlFlowData(b --> c)]\
         LineEnding(\\n)Content[Paragraph[Data(d)]]"
    );
    assert_eq!(tree("<?a?>b"), "HtmlFlow[HtmlFlowData(<?a?>b)]");
    assert_eq!(tree("<!a>b"), "HtmlFlow[HtmlFlowData(<!a>b)]");
    assert_eq!(tree("<![CDATA[a]]>b"), "HtmlFlow[HtmlFlowData(<![CDATA[a]]>b)]");
    assert_eq!(tree("<![CDAT[a]]>"), "Content[Paragraph[Data(<![CDAT[a]]>)]]");
}

#[test]
fn tree_of_complete_tags() {
    assert_eq!(
        tree("<x-y a=\"b\" c='d' e=f g>\nh"),
        "HtmlFlow[HtmlFlowData(<x-y a=\"b\" c='d' e=f g>)LineEnding(\\n)HtmlFlowData(h)]"
    );
    // A complete tag has to stand alone in its line.
    assert_eq!(tree("<x> a"), "Content[Paragraph[Data(<x> a)]]");
    // A name that is too long to be kept is the name of no block.
    assert_eq!(tree("<blockquotes a"), "Content[Paragraph[Data(<blockquotes a)]]");
    assert_eq!(tree("<blockquotes>"), "HtmlFlow[HtmlFlowData(<blockquotes>)]");
}

#[test]
fn tree_of_html_behind_a_paragraph() {
    // The tag of a block ends a paragraph, a complete tag does not.
    assert_eq!(
        tree("a\n<div>"),
        "Content[Paragraph[Data(a)]]LineEnding(\\n)HtmlFlow[HtmlFlowData(<div>)]"
    );
    assert_eq!(tree("a\n<x>"), "Content[Paragraph[Data(a)LineEnding(\\n)Data(<x>)]]");
    // Fenced code ends a paragraph as well.
    assert_eq!(
        tree("a\n```\nb"),
        "Content[Paragraph[Data(a)]]LineEnding(\\n)CodeFenced[CodeFencedFence[\
         CodeFencedFenceSequence(```)]LineEnding(\\n)CodeFlowChunk(b)]"
    );
}

#[test]
fn tree_of_a_setext_heading() {
    assert_eq!(
        tree("Foo\nbar\n==="),
        "HeadingSetext[HeadingSetextText[Data(Foo)LineEnding(\\n)Data(bar)]LineEnding(\\n)\
         HeadingSetextUnderline(===)]"
    );
    assert_eq!(
        tree("Foo\n   -- \t\nbar"),
        "Content[Paragraph[Data(Foo)LineEnding(\\n)Data(   -- \\t_)LineEnding(\\n)Data(bar)]]"
    );
    assert_eq!(
        tree("Foo\n   -- \t\n\nbar"),
        "HeadingSetext[HeadingSetextText[Data(Foo)]LineEnding(\\n)\
         HeadingSetextUnderline(   -- \\t_)]LineEnding(\\n)BlankLineEnding(\\n)\
         Content[Paragraph[Data(bar)]]"
    );
}

#[test]
fn tree_of_what_is_no_setext_heading() {
    // An underline needs a paragraph in front of it.
    assert_eq!(tree("==="), "Content[Paragraph[Data(===)]]");
    // The characters of an underline are all the same.
    assert_eq!(tree("Foo\n=-="), "Content[Paragraph[Data(Foo)LineEnding(\\n)Data(=-=)]]");
    assert_eq!(tree("Foo\n= ="), "Content[Paragraph[Data(Foo)LineEnding(\\n)Data(= =)]]");
    // Four columns of whitespace are too many.
    assert_eq!(tree("Foo\n    ="), "Content[Paragraph[Data(Foo)LineEnding(\\n)Data(    =)]]");
}

#[test]
fn tree_of_a_setext_heading_under_which_a_thematic_break_stands() {
    assert_eq!(
        tree("Foo\nbar\n---\nbaz"),
        "HeadingSetext[HeadingSetextText[Data(Foo)LineEnding(\\n)Data(bar)]LineEnding(\\n)\
         HeadingSetextUnderline(---)]LineEnding(\\n)Content[Paragraph[Data(baz)]]"
    );
    assert_eq!(
        tree("Foo\n  ----  "),
        "HeadingSetext[HeadingSetextText[Data(Foo)]LineEnding(\\n)HeadingSetextUnderline(  ----  )]"
    );
    // A thematic break of other characters, or with whitespace inside it,
    // stays one.
    assert_eq!(
        tree("Foo\n***"),
        "Content[Paragraph[Data(Foo)]]LineEnding(\\n)ThematicBreak[ThematicBreakSequence(***)]"
    );
    assert_eq!(
        tree("Foo\n- - -"),
        "Content[Paragraph[Data(Foo)]]LineEnding(\\n)ThematicBreak[ThematicBreakSequence(-)\
         ThematicBreakWhitespace( )ThematicBreakSequence(-)ThematicBreakWhitespace( )\
         ThematicBreakSequence(-)]"
    );
    // So does one with nothing in front of it.
    assert_eq!(tree("---"), "ThematicBreak[ThematicBreakSequence(---)]");
    assert_eq!(
        tree("Foo\n\n---"),
        "Content[Paragraph[Data(Foo)]]LineEnding(\\n)BlankLineEnding(\\n)\
         ThematicBreak[ThematicBreakSequence(---)]"
    );
}
