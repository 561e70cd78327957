//! The character around titles.

use vstd::prelude::*;
use vstd::string::StringExecFns;
use crate::to_markdown::construct_name::ConstructName;
use crate::to_markdown::message::Message;
use crate::to_markdown::state::State;
use crate::to_markdown::text::push_char;

verus! {

/// Whether `quote` can stand around a title.
pub open spec fn is_quote(quote: char) -> bool {
    quote == '"' || quote == '\'' || quote == '('
}

/// The reason that is given when `quote` cannot stand around a title.
pub open spec fn quote_reason(quote: char) -> Seq<char> {
    "Cannot serialize title with `"@.push(quote)
        + "` for `options.quote`, expected `\"`, `'`, or `(`"@
}

/// The character to put around titles, as the options have it, or why it
/// cannot be used.
pub fn check_quote(state: &State) -> (result: Result<char, Message>)
    ensures
        is_quote(state.options.quote) ==> result == Ok::<char, Message>(state.options.quote),
        !is_quote(state.options.quote) ==> {
            &&& result matches Err(message)
            &&& message.construct == ConstructName::Definition
            &&& message.reason@ == quote_reason(state.options.quote)
            &&& message.rule_id@ == "unexpected-marker"@
            &&& message.source@ == "flowmark"@
        },
{
    let marker = state.options.quote;
    if marker != '"' && marker != '\'' && marker != '(' {
        let mut reason = String::from_str("Cannot serialize title with `");
        push_char(&mut reason, marker);
        reason.append("` for `options.quote`, expected `\"`, `'`, or `(`");
        return Err(
            Message {
                construct: ConstructName::Definition,
                reason,
                rule_id: String::from_str("unexpected-marker"),
                source: String::from_str("flowmark"),
            },
        );
    }
    Ok(marker)
}

} // verus!
