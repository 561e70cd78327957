use flowmark::to_markdown::construct_name::ConstructName;
use flowmark::to_markdown::handle::definition::contain_control_char_or_whitespace;
use flowmark::to_markdown::node::Definition;
use flowmark::to_markdown::state::{Options, State};
use flowmark::to_markdown::util::check_quote::check_quote;
use flowmark::to_markdown::util::safe::SafeConfig;

fn definition(identifier: &str, label: Option<&str>, url: &str, title: Option<&str>) -> Definition {
    Definition {
        url: url.to_string(),
        title: title.map(|title| title.to_string()),
        identifier: identifier.to_string(),
        label: label.map(|label| label.to_string()),
    }
}

fn write(node: &Definition, quote: char) -> Result<String, String> {
    let mut state = State::new(Options { quote });
    let result = node.handle(&mut state);
    assert!(state.stack.is_empty());
    result.map_err(|message| message.reason)
}

#[test]
fn definition_with_label_and_destination() {
    assert_eq!(write(&definition("a", Some("a"), "b", None), '"'), Ok("[a]: b".to_string()));
}

#[test]
fn definition_with_title() {
    assert_eq!(
        write(&definition("a", Some("a"), "b", Some("c")), '"'),
        Ok("[a]: b \"c\"".to_string())
    );
    assert_eq!(
        write(&definition("a", Some("a"), "b", Some("c")), '\''),
        Ok("[a]: b 'c'".to_string())
    );
    assert_eq!(
        write(&definition("a", Some("a"), "b", Some("c")), '('),
        Ok("[a]: b (c)".to_string())
    );
}

#[test]
fn definition_with_empty_destination() {
    assert_eq!(write(&definition("a", Some("a"), "", None), '"'), Ok("[a]: <>".to_string()));
}

#[test]
fn definition_with_whitespace_in_destination() {
    assert_eq!(
        write(&definition("a", Some("a"), "b c", None), '"'),
        Ok("[a]: <b c>".to_string())
    );
    assert_eq!(
        write(&definition("a", Some("a"), "b\nc", None), '"'),
        Ok("[a]: <b&#xA;c>".to_string())
    );
    assert_eq!(
        write(&definition("a", Some("a"), "b<c>", None), '"'),
        Ok("[a]: b\\<c>".to_string())
    );
    assert_eq!(
        write(&definition("a", Some("a"), "b <c>", None), '"'),
        Ok("[a]: <b \\<c\\>>".to_string())
    );
}

#[test]
fn definition_escapes_what_would_end_a_part() {
    assert_eq!(
        write(&definition("a", Some("a]b"), "c(d)", Some("e\"f")), '"'),
        Ok("[a\\]b]: c\\(d\\) \"e\\\"f\"".to_string())
    );
    assert_eq!(
        write(&definition("a", Some("a"), "b", Some("a'b(c)")), '\''),
        Ok("[a]: b 'a\\'b(c)'".to_string())
    );
    assert_eq!(
        write(&definition("a", Some("a"), "b", Some("a'b(c)")), '('),
        Ok("[a]: b (a'b\\(c\\))".to_string())
    );
}

#[test]
fn definition_without_label_reads_the_identifier() {
    assert_eq!(
        write(&definition("a\\*b&amp;c&#35;d&#x23;e&unknown;f", None, "g", None), '"'),
        Ok("[a*b\\&c#d#e\\&unknown;f]: g".to_string())
    );
    assert_eq!(write(&definition("", None, "g", None), '"'), Ok("[]: g".to_string()));
    assert_eq!(write(&definition("x", Some(""), "g", None), '"'), Ok("[]: g".to_string()));
    // A reference to a character that is not allowed stands for the
    // replacement character.
    assert_eq!(write(&definition("&#0;", None, "g", None), '"'), Ok("[\u{FFFD}]: g".to_string()));
}

#[test]
fn definition_with_a_quote_that_cannot_be_used() {
    assert_eq!(
        write(&definition("a", Some("a"), "b", Some("c")), '*'),
        Err("Cannot serialize title with `*` for `options.quote`, expected `\"`, `'`, or `(`"
            .to_string())
    );
    let state = State::new(Options { quote: '*' });
    let message = check_quote(&state).unwrap_err();
    assert_eq!(message.construct, ConstructName::Definition);
    assert_eq!(message.rule_id, "unexpected-marker");
    assert_eq!(message.source, "flowmark");
    assert_eq!(check_quote(&State::new(Options { quote: '(' })).unwrap(), '(');
}

#[test]
fn control_characters_and_whitespace_are_found() {
    assert!(!contain_control_char_or_whitespace(""));
    assert!(!contain_control_char_or_whitespace("abc"));
    assert!(contain_control_char_or_whitespace("a b"));
    assert!(contain_control_char_or_whitespace("a\u{7}b"));
    assert!(contain_control_char_or_whitespace("a\u{a0}b"));
    assert!(contain_control_char_or_whitespace("a\u{85}"));
}

#[test]
fn safe_escapes_in_phrasing() {
    let mut state = State::new(Options { quote: '"' });
    state.enter(ConstructName::Paragraph);
    state.enter(ConstructName::Phrasing);
    let config = SafeConfig::new("", "", None);
    assert_eq!(state.safe("a*b_c", &config), "a\\*b\\_c");
    assert_eq!(state.safe("# a", &config), "\\# a");
    assert_eq!(state.safe("a # b", &config), "a # b");
    assert_eq!(state.safe("1. a", &config), "1\\. a");
    assert_eq!(state.safe("a \nb", &config), "a&#x20;\nb");
    assert_eq!(state.safe("a\\*b", &config), "a\\\\\\*b");
    assert_eq!(state.safe("a\\b", &config), "a\\b");
    assert_eq!(state.safe("&amp; & a", &config), "\\&amp; & a");
    assert_eq!(state.safe("![a](b)", &config), "\\!\\[a]\\(b)");
    state.exit();
    state.exit();
    assert!(state.stack.is_empty());
}

#[test]
fn safe_looks_at_what_stands_around_the_text() {
    let state = State::new(Options { quote: '"' });
    // A number sign is escaped only at the start of a line.
    assert_eq!(state.safe("#", &SafeConfig::new("a", "", None)), "#");
    assert_eq!(state.safe("#", &SafeConfig::new("a\n", "", None)), "\\#");
    // A backslash is doubled in front of a punctuation character that
    // stands behind the text.
    assert_eq!(state.safe("a\\", &SafeConfig::new("", "]", None)), "a\\\\");
    assert_eq!(state.safe("a\\", &SafeConfig::new("", "b", None)), "a\\");
    // An ampersand is escaped in front of what stands behind the text.
    assert_eq!(state.safe("&", &SafeConfig::new("", "#", None)), "\\&");
}

#[test]
fn safe_writes_a_reference_for_the_character_to_encode() {
    let mut state = State::new(Options { quote: '"' });
    state.enter(ConstructName::Phrasing);
    assert_eq!(state.safe("a*b", &SafeConfig::new("", "", Some('*'))), "a&#x2A;b");
    assert_eq!(state.safe("a*b", &SafeConfig::new("", "", Some('_'))), "a\\*b");
}

#[test]
fn whitespace_and_control_characters_are_those_of_unicode() {
    for number in 0..=0x10FFFF_u32 {
        if let Some(c) = char::from_u32(number) {
            let whitespace = matches!(
                number,
                0x9..=0xD
                    | 0x20
                    | 0x85
                    | 0xA0
                    | 0x1680
                    | 0x2000..=0x200A
                    | 0x2028
                    | 0x2029
                    | 0x202F
                    | 0x205F
                    | 0x3000
            );
            let control = matches!(number, 0..=0x1F | 0x7F..=0x9F);
            let mut text = String::from("a");
            text.push(c);
            let found = contain_control_char_or_whitespace(&text);
            assert_eq!(found, whitespace || control, "{:x}", number);
            assert_eq!(found, c.is_whitespace() || c.is_control(), "{:x}", number);
        }
    }
}
