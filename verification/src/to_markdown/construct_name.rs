//! The names of the constructs that a serializer can be in.

use vstd::prelude::*;

verus! {

/// The name of a construct.
///
/// A serializer enters a construct when it begins to write it and leaves it
/// when it is done; what has to be escaped depends on the constructs that
/// it is in.
#[derive(Clone, Copy, Debug, PartialEq, Eq, Structural)]
pub enum ConstructName {
    /// An autolink: `<https://example.com>`.
    Autolink,
    /// A block quote.
    Blockquote,
    /// Fenced code.
    CodeFenced,
    /// The info string of fenced code with a fence of grave accents.
    CodeFencedLangGraveAccent,
    /// The info string of fenced code with a fence of tildes.
    CodeFencedLangTilde,
    /// What stands behind the info string, with a fence of grave accents.
    CodeFencedMetaGraveAccent,
    /// What stands behind the info string, with a fence of tildes.
    CodeFencedMetaTilde,
    /// Indented code.
    CodeIndented,
    /// A definition: `[a]: b "c"`.
    Definition,
    /// A destination between angle brackets: `<a b>`.
    DestinationLiteral,
    /// A destination without angle brackets: `a`.
    DestinationRaw,
    /// Emphasis.
    Emphasis,
    /// An ATX heading.
    HeadingAtx,
    /// A setext heading.
    HeadingSetext,
    /// An image.
    Image,
    /// A reference to an image.
    ImageReference,
    /// A label: `[a]`.
    Label,
    /// A link.
    Link,
    /// A reference to a link.
    LinkReference,
    /// A list.
    List,
    /// An item of a list.
    ListItem,
    /// A paragraph.
    Paragraph,
    /// Phrasing: text with emphasis, links and the like in it.
    Phrasing,
    /// A reference: the second pair of brackets in `[a][b]`.
    Reference,
    /// Strong emphasis.
    Strong,
    /// A title between apostrophes: `'a'`.
    TitleApostrophe,
    /// A title between parentheses: `(a)`.
    TitleParen,
    /// A title between quotation marks: `"a"`.
    TitleQuote,
}

} // verus!
